//! Skill values and skill syntax trees, with their mathematical views, exact copies and equality.
use crate::number::SkillNumber;
use crate::table::{distinct, has_key, key_index, lemma_found, lookup, put, take_out, KeyedMap};
use vstd::prelude::*;

verus! {

/// Named arguments, in the order in which they were written.
pub type SkillArgs = KeyedMap<SkillValue>;

/// The parameters of a skill graph.
pub type SkillParams = KeyedMap<SkillValue>;

/// The identifier of a skill.
#[derive(Debug, Hash)]
pub struct SkillId(pub String);

impl SkillId {
    pub open spec fn view(&self) -> Seq<char> {
        self.0@
    }

    pub fn new(id: String) -> (r: SkillId)
        ensures
            r@ == id@,
    {
        SkillId(id)
    }

    /// The identifier as text.
    pub fn text(&self) -> (r: &str)
        ensures
            r@ == self@,
    {
        self.0.as_str()
    }
}

impl Clone for SkillId {
    fn clone(&self) -> (r: SkillId)
        ensures
            r == *self,
    {
        SkillId(self.0.clone())
    }
}

impl PartialEq for SkillId {
    fn eq(&self, other: &SkillId) -> (r: bool) {
        self.0 == other.0
    }
}

impl vstd::std_specs::cmp::PartialEqSpecImpl for SkillId {
    open spec fn obeys_eq_spec() -> bool {
        true
    }

    open spec fn eq_spec(&self, other: &SkillId) -> bool {
        self@ == other@
    }
}

impl Eq for SkillId {

}

impl From<&str> for SkillId {
    fn from(value: &str) -> (r: SkillId)
        ensures
            r@ == value@,
    {
        SkillId(value.to_owned())
    }
}

impl vstd::std_specs::convert::FromSpecImpl<&str> for SkillId {
    open spec fn obeys_from_spec() -> bool {
        false
    }

    open spec fn from_spec(value: &str) -> SkillId {
        arbitrary()
    }
}

/// An expression in its written form.
#[derive(Debug)]
pub struct SkillExpr(pub String);

impl SkillExpr {
    pub open spec fn view(&self) -> Seq<char> {
        self.0@
    }

    pub fn new(expr: String) -> (r: SkillExpr)
        ensures
            r@ == expr@,
    {
        SkillExpr(expr)
    }
}

impl Clone for SkillExpr {
    fn clone(&self) -> (r: SkillExpr)
        ensures
            r == *self,
    {
        SkillExpr(self.0.clone())
    }
}

impl PartialEq for SkillExpr {
    fn eq(&self, other: &SkillExpr) -> (r: bool) {
        self.0 == other.0
    }
}

impl vstd::std_specs::cmp::PartialEqSpecImpl for SkillExpr {
    open spec fn obeys_eq_spec() -> bool {
        true
    }

    open spec fn eq_spec(&self, other: &SkillExpr) -> bool {
        self@ == other@
    }
}

/// A value that names something to be worked out later.
#[derive(Debug)]
pub enum SkillSpecialValue {
    Expr(String),
    Ref(String),
    Tag(String),
    Stat(String),
}

pub enum SpecialView {
    Expr(Seq<char>),
    Ref(Seq<char>),
    Tag(Seq<char>),
    Stat(Seq<char>),
}

impl SkillSpecialValue {
    pub open spec fn view(&self) -> SpecialView {
        match self {
            SkillSpecialValue::Expr(s) => SpecialView::Expr(s@),
            SkillSpecialValue::Ref(s) => SpecialView::Ref(s@),
            SkillSpecialValue::Tag(s) => SpecialView::Tag(s@),
            SkillSpecialValue::Stat(s) => SpecialView::Stat(s@),
        }
    }
}

impl Clone for SkillSpecialValue {
    fn clone(&self) -> (r: SkillSpecialValue)
        ensures
            r == *self,
    {
        match self {
            SkillSpecialValue::Expr(s) => SkillSpecialValue::Expr(s.clone()),
            SkillSpecialValue::Ref(s) => SkillSpecialValue::Ref(s.clone()),
            SkillSpecialValue::Tag(s) => SkillSpecialValue::Tag(s.clone()),
            SkillSpecialValue::Stat(s) => SkillSpecialValue::Stat(s.clone()),
        }
    }
}

fn same_special(a: &SkillSpecialValue, b: &SkillSpecialValue) -> (r: bool)
    ensures
        r == (a@ == b@),
{
    match (a, b) {
        (SkillSpecialValue::Expr(x), SkillSpecialValue::Expr(y)) => *x == *y,
        (SkillSpecialValue::Ref(x), SkillSpecialValue::Ref(y)) => *x == *y,
        (SkillSpecialValue::Tag(x), SkillSpecialValue::Tag(y)) => *x == *y,
        (SkillSpecialValue::Stat(x), SkillSpecialValue::Stat(y)) => *x == *y,
        _ => false,
    }
}

/// The fields of a registered syntax node, each kept as the text it was written in.
#[derive(Debug)]
pub enum SkillTypedArgs {
    Unit,
    Struct(KeyedMap<String>),
}

pub enum TypedView {
    Unit,
    Struct(Seq<(Seq<char>, Seq<char>)>),
}

/// The entries of a table of texts.
pub open spec fn texts_view(m: KeyedMap<String>) -> Seq<(Seq<char>, Seq<char>)> {
    Seq::new(m.vals().len(), |i: int| (m.names()[i], m.vals()[i]@))
}

impl SkillTypedArgs {
    pub open spec fn view(&self) -> TypedView {
        match self {
            SkillTypedArgs::Unit => TypedView::Unit,
            SkillTypedArgs::Struct(m) => TypedView::Struct(texts_view(*m)),
        }
    }
}

/// A skill value.
#[derive(Debug)]
pub enum SkillValue {
    Special(SkillSpecialValue),
    Node(Box<SkillNode>),
    Table(KeyedMap<SkillValue>),
    List(Vec<SkillValue>),
    Number(SkillNumber),
    Bool(bool),
    String(String),
    Null,
}

/// A node of a skill's syntax tree.
#[derive(Debug)]
pub enum SkillNode {
    Sequence(Vec<SkillNode>),
    Parallel(Vec<SkillNode>),
    Delay(SkillExpr, Box<SkillNode>),
    Repeat {
        times: Option<SkillExpr>,
        duration: Option<SkillExpr>,
        interval: Option<SkillExpr>,
        node: Box<SkillNode>,
    },
    If { condition: SkillExpr, then_node: Box<SkillNode>, else_node: Option<Box<SkillNode>> },
    Let(String, SkillValue, Box<SkillNode>),
    On(String, Box<SkillNode>),
    Emit(String, KeyedMap<SkillValue>),
    Action(String, KeyedMap<SkillValue>),
    /// Syntax that a cast model consumes.
    Deck(Vec<SkillNode>),
    Spell(String, KeyedMap<SkillValue>),
    Modifier(String, KeyedMap<SkillValue>),
    /// A registered syntax node; compilation lowers it to the nodes above.
    Typed { name: String, args: SkillTypedArgs },
}

pub enum ValueView {
    Special(SpecialView),
    Node(Box<NodeView>),
    Table(Seq<(Seq<char>, ValueView)>),
    List(Seq<ValueView>),
    Number(SkillNumber),
    Bool(bool),
    String(Seq<char>),
    Null,
}

pub enum NodeView {
    Sequence(Seq<NodeView>),
    Parallel(Seq<NodeView>),
    Delay(Seq<char>, Box<NodeView>),
    Repeat {
        times: Option<Seq<char>>,
        duration: Option<Seq<char>>,
        interval: Option<Seq<char>>,
        node: Box<NodeView>,
    },
    If { condition: Seq<char>, then_node: Box<NodeView>, else_node: Option<Box<NodeView>> },
    Let(Seq<char>, ValueView, Box<NodeView>),
    On(Seq<char>, Box<NodeView>),
    Emit(Seq<char>, Seq<(Seq<char>, ValueView)>),
    Action(Seq<char>, Seq<(Seq<char>, ValueView)>),
    Deck(Seq<NodeView>),
    Spell(Seq<char>, Seq<(Seq<char>, ValueView)>),
    Modifier(Seq<char>, Seq<(Seq<char>, ValueView)>),
    Typed { name: Seq<char>, args: TypedView },
}

/// What an argument table stands for.
pub type ArgsView = Seq<(Seq<char>, ValueView)>;

/// The text of an expression that may be absent.
pub open spec fn expr_view(e: Option<SkillExpr>) -> Option<Seq<char>> {
    match e {
        Some(x) => Some(x@),
        None => None,
    }
}

/// The values of a list.
pub open spec fn list_view(l: Seq<SkillValue>) -> Seq<ValueView>
    decreases l,
{
    Seq::new(
        l.len(),
        |i: int|
            if 0 <= i < l.len() {
                l[i].view()
            } else {
                arbitrary()
            },
    )
}

/// The nodes of a list.
pub open spec fn nodes_view(l: Seq<SkillNode>) -> Seq<NodeView>
    decreases l,
{
    Seq::new(
        l.len(),
        |i: int|
            if 0 <= i < l.len() {
                l[i].view()
            } else {
                arbitrary()
            },
    )
}

/// The entries of an argument table.
pub open spec fn args_view(m: KeyedMap<SkillValue>) -> Seq<(Seq<char>, ValueView)>
    decreases m,
{
    Seq::new(
        m.vals().len(),
        |i: int|
            if 0 <= i < m.vals().len() {
                (m.names()[i], m.vals()[i].view())
            } else {
                arbitrary()
            },
    )
}

impl SkillValue {
    pub open spec fn view(&self) -> ValueView
        decreases self,
    {
        match self {
            SkillValue::Special(s) => ValueView::Special(s@),
            SkillValue::Node(n) => ValueView::Node(Box::new(n.view())),
            SkillValue::Table(m) => ValueView::Table(args_view(*m)),
            SkillValue::List(l) => ValueView::List(list_view(l@)),
            SkillValue::Number(n) => ValueView::Number(*n),
            SkillValue::Bool(b) => ValueView::Bool(*b),
            SkillValue::String(s) => ValueView::String(s@),
            SkillValue::Null => ValueView::Null,
        }
    }
}

impl SkillNode {
    pub open spec fn view(&self) -> NodeView
        decreases self,
    {
        match self {
            SkillNode::Sequence(l) => NodeView::Sequence(nodes_view(l@)),
            SkillNode::Parallel(l) => NodeView::Parallel(nodes_view(l@)),
            SkillNode::Delay(e, n) => NodeView::Delay(e@, Box::new(n.view())),
            SkillNode::Repeat { times, duration, interval, node } => NodeView::Repeat {
                times: expr_view(*times),
                duration: expr_view(*duration),
                interval: expr_view(*interval),
                node: Box::new(node.view()),
            },
            SkillNode::If { condition, then_node, else_node } => NodeView::If {
                condition: condition@,
                then_node: Box::new(then_node.view()),
                else_node: match else_node {
                    Some(n) => Some(Box::new(n.view())),
                    None => None,
                },
            },
            SkillNode::Let(name, value, n) => NodeView::Let(
                name@,
                value.view(),
                Box::new(n.view()),
            ),
            SkillNode::On(event, n) => NodeView::On(event@, Box::new(n.view())),
            SkillNode::Emit(event, m) => NodeView::Emit(event@, args_view(*m)),
            SkillNode::Action(id, m) => NodeView::Action(id@, args_view(*m)),
            SkillNode::Deck(l) => NodeView::Deck(nodes_view(l@)),
            SkillNode::Spell(id, m) => NodeView::Spell(id@, args_view(*m)),
            SkillNode::Modifier(id, m) => NodeView::Modifier(id@, args_view(*m)),
            SkillNode::Typed { name, args } => NodeView::Typed { name: name@, args: args@ },
        }
    }
}

/// A copy of an expression that may be absent.
pub fn copy_expr(e: &Option<SkillExpr>) -> (r: Option<SkillExpr>)
    ensures
        r == *e,
{
    match e {
        Some(x) => Some(x.clone()),
        None => None,
    }
}

/// A copy of a table of texts.
pub fn copy_texts(m: &KeyedMap<String>) -> (r: KeyedMap<String>)
    ensures
        texts_view(r) == texts_view(*m),
        distinct(texts_view(r)),
{
    let mut out: Vec<String> = Vec::new();
    let n: usize = m.len();
    let mut i: usize = 0;
    while i < n
        invariant
            i <= n,
            n == m@.len(),
            out@.len() == i,
            forall|j: int| 0 <= j < i ==> (#[trigger] out@[j]) == m.vals()[j],
        decreases n - i,
    {
        out.push(m.value(i).clone());
        i = i + 1;
    }
    let r = m.rebuilt(out);
    assert(texts_view(r) =~= texts_view(*m));
    proof {
        lemma_texts_distinct(r);
    }
    r
}

/// The names of a table of texts are distinct with those of the table.
proof fn lemma_texts_distinct(m: KeyedMap<String>)
    requires
        distinct(m@),
    ensures
        distinct(texts_view(m)),
{
    assert forall|i: int, j: int|
        0 <= i < texts_view(m).len() && 0 <= j < texts_view(m).len() && (#[trigger] texts_view(
            m,
        )[i]).0 == (#[trigger] texts_view(m)[j]).0 implies i == j by {
        assert(m@[i].0 == m@[j].0);
    }
}

/// A copy of a value.
pub fn copy_value(v: &SkillValue) -> (r: SkillValue)
    ensures
        r@ == v@,
    decreases v@,
{
    match v {
        SkillValue::Special(s) => SkillValue::Special(s.clone()),
        SkillValue::Node(n) => {
            assert(decreases_to!(v@ => v@->Node_0));
            SkillValue::Node(Box::new(copy_node(n)))
        },
        SkillValue::Table(m) => {
            assert(decreases_to!(v@ => v@->Table_0));
            SkillValue::Table(copy_args(m))
        },
        SkillValue::List(l) => {
            assert(decreases_to!(v@ => v@->List_0));
            SkillValue::List(copy_values(l))
        },
        SkillValue::Number(n) => SkillValue::Number(*n),
        SkillValue::Bool(b) => SkillValue::Bool(*b),
        SkillValue::String(s) => SkillValue::String(s.clone()),
        SkillValue::Null => SkillValue::Null,
    }
}

/// A copy of a list of values.
pub fn copy_values(l: &Vec<SkillValue>) -> (r: Vec<SkillValue>)
    ensures
        list_view(r@) == list_view(l@),
        r@.len() == l@.len(),
    decreases list_view(l@),
{
    let mut out: Vec<SkillValue> = Vec::new();
    let n: usize = l.len();
    let mut i: usize = 0;
    while i < n
        invariant
            i <= n,
            n == l@.len(),
            out@.len() == i,
            forall|j: int| 0 <= j < i ==> (#[trigger] out@[j])@ == l@[j]@,
        decreases n - i,
    {
        assert(list_view(l@)[i as int] == l@[i as int]@);
        assert(decreases_to!(list_view(l@) => list_view(l@)[i as int]));
        out.push(copy_value(&l[i]));
        i = i + 1;
    }
    assert(list_view(out@) =~= list_view(l@));
    out
}

/// A copy of an argument table.
pub fn copy_args(m: &KeyedMap<SkillValue>) -> (r: KeyedMap<SkillValue>)
    ensures
        args_view(r) == args_view(*m),
        distinct(args_view(r)),
    decreases args_view(*m),
{
    let mut out: Vec<SkillValue> = Vec::new();
    let n: usize = m.len();
    let mut i: usize = 0;
    while i < n
        invariant
            i <= n,
            n == m@.len(),
            out@.len() == i,
            forall|j: int| 0 <= j < i ==> (#[trigger] out@[j])@ == m.vals()[j]@,
        decreases n - i,
    {
        assert(args_view(*m)[i as int].1 == m.vals()[i as int]@);
        assert(decreases_to!(args_view(*m) => args_view(*m)[i as int]));
        assert(decreases_to!(args_view(*m)[i as int] => args_view(*m)[i as int].1));
        out.push(copy_value(m.value(i)));
        i = i + 1;
    }
    let r = m.rebuilt(out);
    assert(args_view(r) =~= args_view(*m));
    proof {
        lemma_args_distinct(r);
    }
    r
}

/// A copy of a list of nodes.
pub fn copy_nodes(l: &Vec<SkillNode>) -> (r: Vec<SkillNode>)
    ensures
        nodes_view(r@) == nodes_view(l@),
        r@.len() == l@.len(),
    decreases nodes_view(l@),
{
    let mut out: Vec<SkillNode> = Vec::new();
    let n: usize = l.len();
    let mut i: usize = 0;
    while i < n
        invariant
            i <= n,
            n == l@.len(),
            out@.len() == i,
            forall|j: int| 0 <= j < i ==> (#[trigger] out@[j])@ == l@[j]@,
        decreases n - i,
    {
        assert(nodes_view(l@)[i as int] == l@[i as int]@);
        assert(decreases_to!(nodes_view(l@) => nodes_view(l@)[i as int]));
        out.push(copy_node(&l[i]));
        i = i + 1;
    }
    assert(nodes_view(out@) =~= nodes_view(l@));
    out
}

/// A copy of a node.
pub fn copy_node(v: &SkillNode) -> (r: SkillNode)
    ensures
        r@ == v@,
    decreases v@,
{
    match v {
        SkillNode::Sequence(l) => {
            assert(decreases_to!(v@ => v@->Sequence_0));
            SkillNode::Sequence(copy_nodes(l))
        },
        SkillNode::Parallel(l) => {
            assert(decreases_to!(v@ => v@->Parallel_0));
            SkillNode::Parallel(copy_nodes(l))
        },
        SkillNode::Delay(e, n) => {
            assert(decreases_to!(v@ => v@->Delay_1));
            SkillNode::Delay(e.clone(), Box::new(copy_node(n)))
        },
        SkillNode::Repeat { times, duration, interval, node } => {
            assert(decreases_to!(v@ => v@->Repeat_node));
            SkillNode::Repeat {
                times: copy_expr(times),
                duration: copy_expr(duration),
                interval: copy_expr(interval),
                node: Box::new(copy_node(node)),
            }
        },
        SkillNode::If { condition, then_node, else_node } => {
            assert(decreases_to!(v@ => v@->If_then_node));
            let other = match else_node {
                Some(n) => {
                    assert(decreases_to!(v@ => v@->If_else_node));
                    assert(decreases_to!(v@->If_else_node => v@->If_else_node->0));
                    Some(Box::new(copy_node(n)))
                },
                None => None,
            };
            SkillNode::If {
                condition: condition.clone(),
                then_node: Box::new(copy_node(then_node)),
                else_node: other,
            }
        },
        SkillNode::Let(name, value, n) => {
            assert(decreases_to!(v@ => v@->Let_1));
            assert(decreases_to!(v@ => v@->Let_2));
            SkillNode::Let(name.clone(), copy_value(value), Box::new(copy_node(n)))
        },
        SkillNode::On(event, n) => {
            assert(decreases_to!(v@ => v@->On_1));
            SkillNode::On(event.clone(), Box::new(copy_node(n)))
        },
        SkillNode::Emit(event, m) => {
            assert(decreases_to!(v@ => v@->Emit_1));
            SkillNode::Emit(event.clone(), copy_args(m))
        },
        SkillNode::Action(id, m) => {
            assert(decreases_to!(v@ => v@->Action_1));
            SkillNode::Action(id.clone(), copy_args(m))
        },
        SkillNode::Deck(l) => {
            assert(decreases_to!(v@ => v@->Deck_0));
            SkillNode::Deck(copy_nodes(l))
        },
        SkillNode::Spell(id, m) => {
            assert(decreases_to!(v@ => v@->Spell_1));
            SkillNode::Spell(id.clone(), copy_args(m))
        },
        SkillNode::Modifier(id, m) => {
            assert(decreases_to!(v@ => v@->Modifier_1));
            SkillNode::Modifier(id.clone(), copy_args(m))
        },
        SkillNode::Typed { name, args } => SkillNode::Typed {
            name: name.clone(),
            args: args.clone(),
        },
    }
}

impl Clone for SkillTypedArgs {
    fn clone(&self) -> (r: SkillTypedArgs)
        ensures
            r@ == self@,
    {
        match self {
            SkillTypedArgs::Unit => SkillTypedArgs::Unit,
            SkillTypedArgs::Struct(m) => SkillTypedArgs::Struct(copy_texts(m)),
        }
    }
}

impl Clone for SkillValue {
    fn clone(&self) -> (r: SkillValue)
        ensures
            r@ == self@,
    {
        copy_value(self)
    }
}

impl Clone for SkillNode {
    fn clone(&self) -> (r: SkillNode)
        ensures
            r@ == self@,
    {
        copy_node(self)
    }
}

impl Default for SkillValue {
    fn default() -> (r: SkillValue)
        ensures
            r@ == ValueView::Null,
    {
        SkillValue::Null
    }
}

/// The names of an argument table are distinct with those of the table.
pub proof fn lemma_args_distinct(m: KeyedMap<SkillValue>)
    requires
        distinct(m@),
    ensures
        distinct(args_view(m)),
{
    assert forall|i: int, j: int|
        0 <= i < args_view(m).len() && 0 <= j < args_view(m).len() && (#[trigger] args_view(
            m,
        )[i]).0 == (#[trigger] args_view(m)[j]).0 implies i == j by {
        assert(m@[i].0 == m@[j].0);
    }
}

/// A name is found in an argument table where it is found among its entries.
proof fn lemma_args_key(m: KeyedMap<SkillValue>, key: Seq<char>)
    requires
        distinct(m@),
    ensures
        distinct(args_view(m)),
        has_key(args_view(m), key) == has_key(m@, key),
        has_key(m@, key) ==> key_index(args_view(m), key) == key_index(m@, key) && 0 <= key_index(
            m@,
            key,
        ) < m@.len(),
{
    lemma_args_distinct(m);
    if has_key(m@, key) {
        let i = key_index(m@, key);
        assert(0 <= i < m@.len() && m@[i].0 == key);
        assert(args_view(m)[i].0 == key);
        lemma_found(args_view(m), i);
    }
    if has_key(args_view(m), key) {
        let i = key_index(args_view(m), key);
        assert(0 <= i < args_view(m).len() && args_view(m)[i].0 == key);
        assert(m@[i].0 == key);
    }
}

/// An argument table without entries.
pub fn no_args() -> (r: KeyedMap<SkillValue>)
    ensures
        args_view(r) == Seq::<(Seq<char>, ValueView)>::empty(),
{
    let r: KeyedMap<SkillValue> = KeyedMap::new();
    assert(args_view(r) =~= Seq::<(Seq<char>, ValueView)>::empty());
    r
}

/// The argument with a name.
pub fn arg<'a>(m: &'a KeyedMap<SkillValue>, key: &str) -> (r: Option<&'a SkillValue>)
    ensures
        distinct(args_view(*m)),
        match r {
            Some(v) => lookup(args_view(*m), key@) == Some(v@),
            None => lookup(args_view(*m), key@) is None,
        },
{
    let r = m.get(key);
    proof {
        lemma_args_key(*m, key@);
    }
    r
}

/// Sets the argument with a name.
pub fn set_arg(m: &mut KeyedMap<SkillValue>, key: String, value: SkillValue)
    ensures
        args_view(*final(m)) == put(args_view(*old(m)), key@, value@),
        distinct(args_view(*old(m))),
        distinct(args_view(*final(m))),
{
    let ghost before = *m;
    let _ = m.insert(key, value);
    proof {
        lemma_args_key(before, key@);
        lemma_args_distinct(*m);
        let now = *m;
        assert(now@ == put(before@, key@, value));
        assert(args_view(now) =~= put(args_view(before), key@, value@)) by {
            assert(args_view(now).len() == now@.len());
            assert forall|i: int| 0 <= i < now@.len() implies #[trigger] args_view(now)[i] == put(
                args_view(before),
                key@,
                value@,
            )[i] by {
                assert(args_view(now)[i] == (now@[i].0, now@[i].1@));
                if i < before@.len() {
                    assert(args_view(before)[i] == (before@[i].0, before@[i].1@));
                }
            }
        }
    }
}

/// Takes out the argument with a name.
pub fn drop_arg(m: &mut KeyedMap<SkillValue>, key: &str)
    ensures
        args_view(*final(m)) == take_out(args_view(*old(m)), key@),
        distinct(args_view(*old(m))),
        distinct(args_view(*final(m))),
{
    let ghost before = *m;
    let _ = m.shift_remove(key);
    proof {
        lemma_args_key(before, key@);
        lemma_args_distinct(*m);
        let now = *m;
        let k = key_index(before@, key@);
        assert(now@ == take_out(before@, key@));
        assert(args_view(now) =~= take_out(args_view(before), key@)) by {
            assert forall|i: int| 0 <= i < now@.len() implies #[trigger] args_view(now)[i]
                == take_out(args_view(before), key@)[i] by {
                assert(args_view(now)[i] == (now@[i].0, now@[i].1@));
                assert(args_view(before)[i] == (before@[i].0, before@[i].1@));
                if i + 1 < before@.len() {
                    assert(args_view(before)[i + 1] == (before@[i + 1].0, before@[i + 1].1@));
                }
            }
        }
    }
}

/// Equality of values: numbers by number equality, lists place by place, tables by name without
/// regard to order.
pub open spec fn same_value(a: ValueView, b: ValueView) -> bool
    decreases a,
{
    match (a, b) {
        (ValueView::Special(x), ValueView::Special(y)) => x == y,
        (ValueView::Node(x), ValueView::Node(y)) => same_node(*x, *y),
        (ValueView::Table(x), ValueView::Table(y)) => same_args(x, y),
        (ValueView::List(x), ValueView::List(y)) => x.len() == y.len() && forall|i: int|
            0 <= i < x.len() ==> same_value(#[trigger] x[i], y[i]),
        (ValueView::Number(x), ValueView::Number(y)) => crate::number::num_eq(x, y),
        (ValueView::Bool(x), ValueView::Bool(y)) => x == y,
        (ValueView::String(x), ValueView::String(y)) => x == y,
        (ValueView::Null, ValueView::Null) => true,
        _ => false,
    }
}

/// Equality of argument tables: the same names with the same values, in any order.
pub open spec fn same_args(x: ArgsView, y: ArgsView) -> bool
    decreases x,
{
    x.len() == y.len() && forall|i: int|
        0 <= i < x.len() ==> has_key(y, (#[trigger] x[i]).0) && same_value(
            x[i].1,
            y[key_index(y, x[i].0)].1,
        )
}

/// Equality of node lists, place by place.
pub open spec fn same_nodes(x: Seq<NodeView>, y: Seq<NodeView>) -> bool
    decreases x,
{
    x.len() == y.len() && forall|i: int| 0 <= i < x.len() ==> same_node(#[trigger] x[i], y[i])
}

/// Equality of typed fields: the same names with the same texts, in any order.
pub open spec fn same_typed(a: TypedView, b: TypedView) -> bool {
    match (a, b) {
        (TypedView::Unit, TypedView::Unit) => true,
        (TypedView::Struct(x), TypedView::Struct(y)) => x.len() == y.len() && forall|i: int|
            0 <= i < x.len() ==> lookup(y, (#[trigger] x[i]).0) == Some(x[i].1),
        _ => false,
    }
}

/// Equality of nodes.
pub open spec fn same_node(a: NodeView, b: NodeView) -> bool
    decreases a,
{
    match (a, b) {
        (NodeView::Sequence(x), NodeView::Sequence(y)) => same_nodes(x, y),
        (NodeView::Parallel(x), NodeView::Parallel(y)) => same_nodes(x, y),
        (NodeView::Delay(e, x), NodeView::Delay(f, y)) => e == f && same_node(*x, *y),
        (
            NodeView::Repeat { times: t1, duration: d1, interval: i1, node: x },
            NodeView::Repeat { times: t2, duration: d2, interval: i2, node: y },
        ) => t1 == t2 && d1 == d2 && i1 == i2 && same_node(*x, *y),
        (
            NodeView::If { condition: c1, then_node: x, else_node: p },
            NodeView::If { condition: c2, then_node: y, else_node: q },
        ) => c1 == c2 && same_node(*x, *y) && match (p, q) {
            (Some(u), Some(w)) => same_node(*u, *w),
            (None, None) => true,
            _ => false,
        },
        (NodeView::Let(n1, v1, x), NodeView::Let(n2, v2, y)) => n1 == n2 && same_value(v1, v2)
            && same_node(*x, *y),
        (NodeView::On(e, x), NodeView::On(f, y)) => e == f && same_node(*x, *y),
        (NodeView::Emit(e, x), NodeView::Emit(f, y)) => e == f && same_args(x, y),
        (NodeView::Action(e, x), NodeView::Action(f, y)) => e == f && same_args(x, y),
        (NodeView::Deck(x), NodeView::Deck(y)) => same_nodes(x, y),
        (NodeView::Spell(e, x), NodeView::Spell(f, y)) => e == f && same_args(x, y),
        (NodeView::Modifier(e, x), NodeView::Modifier(f, y)) => e == f && same_args(x, y),
        (
            NodeView::Typed { name: n1, args: x },
            NodeView::Typed { name: n2, args: y },
        ) => n1 == n2 && same_typed(x, y),
        _ => false,
    }
}

/// Compares two values.
pub fn equal_values(a: &SkillValue, b: &SkillValue) -> (r: bool)
    ensures
        r == same_value(a@, b@),
    decreases a@,
{
    match (a, b) {
        (SkillValue::Special(x), SkillValue::Special(y)) => same_special(x, y),
        (SkillValue::Node(x), SkillValue::Node(y)) => {
            assert(decreases_to!(a@ => a@->Node_0));
            equal_nodes(x, y)
        },
        (SkillValue::Table(x), SkillValue::Table(y)) => {
            assert(decreases_to!(a@ => a@->Table_0));
            equal_args(x, y)
        },
        (SkillValue::List(x), SkillValue::List(y)) => {
            assert(a@->List_0 == list_view(x@));
            assert(b@->List_0 == list_view(y@));
            if x.len() != y.len() {
                return false;
            }
            let n: usize = x.len();
            let mut i: usize = 0;
            while i < n
                invariant
                    i <= n,
                    n == x@.len(),
                    n == y@.len(),
                    a@ == ValueView::List(list_view(x@)),
                    b@ == ValueView::List(list_view(y@)),
                    forall|j: int|
                        0 <= j < i ==> same_value(#[trigger] list_view(x@)[j], list_view(y@)[j]),
                decreases n - i,
            {
                assert(list_view(x@)[i as int] == x@[i as int]@);
                assert(list_view(y@)[i as int] == y@[i as int]@);
                assert(decreases_to!(a@ => a@->List_0));
                assert(decreases_to!(a@->List_0 => a@->List_0[i as int]));
                if !equal_values(&x[i], &y[i]) {
                    assert(!same_value(list_view(x@)[i as int], list_view(y@)[i as int]));
                    return false;
                }
                i = i + 1;
            }
            true
        },
        (SkillValue::Number(x), SkillValue::Number(y)) => x.equals(*y),
        (SkillValue::Bool(x), SkillValue::Bool(y)) => *x == *y,
        (SkillValue::String(x), SkillValue::String(y)) => *x == *y,
        (SkillValue::Null, SkillValue::Null) => true,
        _ => false,
    }
}

/// Compares two argument tables.
pub fn equal_args(x: &KeyedMap<SkillValue>, y: &KeyedMap<SkillValue>) -> (r: bool)
    ensures
        r == same_args(args_view(*x), args_view(*y)),
    decreases args_view(*x),
{
    let n: usize = x.len();
    if n != y.len() {
        return false;
    }
    let mut i: usize = 0;
    while i < n
        invariant
            i <= n,
            n == args_view(*x).len(),
            n == x@.len(),
            n == args_view(*y).len(),
            forall|j: int|
                0 <= j < i ==> has_key(args_view(*y), (#[trigger] args_view(*x)[j]).0)
                    && same_value(
                    args_view(*x)[j].1,
                    args_view(*y)[key_index(args_view(*y), args_view(*x)[j].0)].1,
                ),
        decreases n - i,
    {
        assert(args_view(*x)[i as int] == (x@[i as int].0, x@[i as int].1@));
        assert(decreases_to!(args_view(*x) => args_view(*x)[i as int]));
        assert(decreases_to!(args_view(*x)[i as int] => args_view(*x)[i as int].1));
        match arg(y, x.key(i).as_str()) {
            Some(w) => {
                if !equal_values(x.value(i), w) {
                    return false;
                }
            },
            None => {
                return false;
            },
        }
        i = i + 1;
    }
    true
}

fn equal_node_lists(x: &Vec<SkillNode>, y: &Vec<SkillNode>) -> (r: bool)
    ensures
        r == same_nodes(nodes_view(x@), nodes_view(y@)),
    decreases nodes_view(x@),
{
    if x.len() != y.len() {
        return false;
    }
    let n: usize = x.len();
    let mut i: usize = 0;
    while i < n
        invariant
            i <= n,
            n == x@.len(),
            n == y@.len(),
            forall|j: int|
                0 <= j < i ==> same_node(#[trigger] nodes_view(x@)[j], nodes_view(y@)[j]),
        decreases n - i,
    {
        assert(nodes_view(x@)[i as int] == x@[i as int]@);
        assert(nodes_view(y@)[i as int] == y@[i as int]@);
        assert(decreases_to!(nodes_view(x@) => nodes_view(x@)[i as int]));
        if !equal_nodes(&x[i], &y[i]) {
            assert(!same_node(nodes_view(x@)[i as int], nodes_view(y@)[i as int]));
            return false;
        }
        i = i + 1;
    }
    true
}

fn equal_exprs(a: &Option<SkillExpr>, b: &Option<SkillExpr>) -> (r: bool)
    ensures
        r == (expr_view(*a) == expr_view(*b)),
{
    match (a, b) {
        (Some(x), Some(y)) => x.0 == y.0,
        (None, None) => true,
        _ => false,
    }
}

fn equal_typed(a: &SkillTypedArgs, b: &SkillTypedArgs) -> (r: bool)
    ensures
        r == same_typed(a@, b@),
{
    match (a, b) {
        (SkillTypedArgs::Unit, SkillTypedArgs::Unit) => true,
        (SkillTypedArgs::Struct(x), SkillTypedArgs::Struct(y)) => {
            let n: usize = x.len();
            if n != y.len() {
                return false;
            }
            let mut i: usize = 0;
            while i < n
                invariant
                    i <= n,
                    n == texts_view(*x).len(),
                    n == x@.len(),
                    n == texts_view(*y).len(),
                    a@ == TypedView::Struct(texts_view(*x)),
                    b@ == TypedView::Struct(texts_view(*y)),
                    forall|j: int|
                        0 <= j < i ==> lookup(texts_view(*y), (#[trigger] texts_view(*x)[j]).0)
                            == Some(texts_view(*x)[j].1),
                decreases n - i,
            {
                assert(texts_view(*x)[i as int] == (x@[i as int].0, x@[i as int].1@));
                let found = y.position(x.key(i).as_str());
                let ghost key = texts_view(*x)[i as int].0;
                proof {
                    lemma_texts_distinct(*y);
                    match found {
                        Some(j) => {
                            assert(texts_view(*y)[j as int].0 == key);
                            lemma_found(texts_view(*y), j as int);
                        },
                        None => {
                            if has_key(texts_view(*y), key) {
                                let j = key_index(texts_view(*y), key);
                                assert(texts_view(*y)[j].0 == key);
                                assert(y@[j].0 == key);
                            }
                        },
                    }
                }
                match found {
                    Some(j) => {
                        if *x.value(i) != *y.value(j) {
                            return false;
                        }
                    },
                    None => {
                        return false;
                    },
                }
                i = i + 1;
            }
            true
        },
        _ => false,
    }
}

/// Compares two nodes.
pub fn equal_nodes(a: &SkillNode, b: &SkillNode) -> (r: bool)
    ensures
        r == same_node(a@, b@),
    decreases a@,
{
    match (a, b) {
        (SkillNode::Sequence(x), SkillNode::Sequence(y)) => {
            assert(decreases_to!(a@ => a@->Sequence_0));
            equal_node_lists(x, y)
        },
        (SkillNode::Parallel(x), SkillNode::Parallel(y)) => {
            assert(decreases_to!(a@ => a@->Parallel_0));
            equal_node_lists(x, y)
        },
        (SkillNode::Delay(e, x), SkillNode::Delay(f, y)) => {
            assert(decreases_to!(a@ => a@->Delay_1));
            e.0 == f.0 && equal_nodes(x, y)
        },
        (
            SkillNode::Repeat { times: t1, duration: d1, interval: i1, node: x },
            SkillNode::Repeat { times: t2, duration: d2, interval: i2, node: y },
        ) => {
            assert(decreases_to!(a@ => a@->Repeat_node));
            equal_exprs(t1, t2) && equal_exprs(d1, d2) && equal_exprs(i1, i2) && equal_nodes(x, y)
        },
        (
            SkillNode::If { condition: c1, then_node: x, else_node: p },
            SkillNode::If { condition: c2, then_node: y, else_node: q },
        ) => {
            assert(decreases_to!(a@ => a@->If_then_node));
            c1.0 == c2.0 && equal_nodes(x, y) && match (p, q) {
                (Some(u), Some(w)) => {
                    assert(decreases_to!(a@ => a@->If_else_node));
                    assert(decreases_to!(a@->If_else_node => a@->If_else_node->0));
                    equal_nodes(u, w)
                },
                (None, None) => true,
                _ => false,
            }
        },
        (SkillNode::Let(n1, v1, x), SkillNode::Let(n2, v2, y)) => {
            assert(decreases_to!(a@ => a@->Let_1));
            assert(decreases_to!(a@ => a@->Let_2));
            *n1 == *n2 && equal_values(v1, v2) && equal_nodes(x, y)
        },
        (SkillNode::On(e, x), SkillNode::On(f, y)) => {
            assert(decreases_to!(a@ => a@->On_1));
            *e == *f && equal_nodes(x, y)
        },
        (SkillNode::Emit(e, x), SkillNode::Emit(f, y)) => {
            assert(decreases_to!(a@ => a@->Emit_1));
            *e == *f && equal_args(x, y)
        },
        (SkillNode::Action(e, x), SkillNode::Action(f, y)) => {
            assert(decreases_to!(a@ => a@->Action_1));
            *e == *f && equal_args(x, y)
        },
        (SkillNode::Deck(x), SkillNode::Deck(y)) => {
            assert(decreases_to!(a@ => a@->Deck_0));
            equal_node_lists(x, y)
        },
        (SkillNode::Spell(e, x), SkillNode::Spell(f, y)) => {
            assert(decreases_to!(a@ => a@->Spell_1));
            *e == *f && equal_args(x, y)
        },
        (SkillNode::Modifier(e, x), SkillNode::Modifier(f, y)) => {
            assert(decreases_to!(a@ => a@->Modifier_1));
            *e == *f && equal_args(x, y)
        },
        (
            SkillNode::Typed { name: n1, args: x },
            SkillNode::Typed { name: n2, args: y },
        ) => *n1 == *n2 && equal_typed(x, y),
        _ => false,
    }
}

impl PartialEq for SkillTypedArgs {
    fn eq(&self, other: &SkillTypedArgs) -> (r: bool) {
        equal_typed(self, other)
    }
}

impl vstd::std_specs::cmp::PartialEqSpecImpl for SkillTypedArgs {
    open spec fn obeys_eq_spec() -> bool {
        true
    }

    open spec fn eq_spec(&self, other: &SkillTypedArgs) -> bool {
        same_typed(self@, other@)
    }
}

impl PartialEq for SkillValue {
    fn eq(&self, other: &SkillValue) -> (r: bool) {
        equal_values(self, other)
    }
}

impl vstd::std_specs::cmp::PartialEqSpecImpl for SkillValue {
    open spec fn obeys_eq_spec() -> bool {
        true
    }

    open spec fn eq_spec(&self, other: &SkillValue) -> bool {
        same_value(self@, other@)
    }
}

impl PartialEq for SkillNode {
    fn eq(&self, other: &SkillNode) -> (r: bool) {
        equal_nodes(self, other)
    }
}

impl vstd::std_specs::cmp::PartialEqSpecImpl for SkillNode {
    open spec fn obeys_eq_spec() -> bool {
        true
    }

    open spec fn eq_spec(&self, other: &SkillNode) -> bool {
        same_node(self@, other@)
    }
}

} // verus!
