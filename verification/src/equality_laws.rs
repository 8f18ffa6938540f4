//! When tables and nodes are equal, and what characters are.
use crate::table::{distinct, has_key, key_index, lemma_found, lookup, names_of};
use crate::text::{is_digit, is_letter, white_space};
use crate::value::{
    same_args, same_node, same_nodes, same_typed, same_value, ArgsView, NodeView, TypedView,
    ValueView,
};
use vstd::prelude::*;

verus! {

/// Two tables have the same names.
pub open spec fn same_names<V, W>(x: Seq<(Seq<char>, V)>, y: Seq<(Seq<char>, W)>) -> bool {
    forall|key: Seq<char>| #[trigger] has_key(x, key) == has_key(y, key)
}

proof fn lemma_names<V>(t: Seq<(Seq<char>, V)>)
    requires
        distinct(t),
    ensures
        names_of(t).to_set().len() == t.len(),
        names_of(t).to_set().finite(),
        forall|key: Seq<char>| #[trigger] names_of(t).to_set().contains(key) == has_key(t, key),
{
    let l = names_of(t);
    assert forall|i: int, j: int| 0 <= i < l.len() && 0 <= j < l.len() && i != j implies l[i]
        != l[j] by {
        if l[i] == l[j] {
            assert(t[i].0 == t[j].0);
        }
    }
    l.unique_seq_to_set();
    vstd::seq_lib::seq_to_set_is_finite(l);
    assert forall|key: Seq<char>| #[trigger] l.to_set().contains(key) == has_key(t, key) by {
        if has_key(t, key) {
            let i = choose|i: int| 0 <= i < t.len() && (#[trigger] t[i]).0 == key;
            assert(l[i] == key);
        }
        if l.to_set().contains(key) {
            let i = choose|i: int| 0 <= i < l.len() && l[i] == key;
            assert(t[i].0 == key);
        }
    }
}

proof fn lemma_same_names<V, W>(x: Seq<(Seq<char>, V)>, y: Seq<(Seq<char>, W)>)
    requires
        distinct(x),
        distinct(y),
    ensures
        same_names(x, y) ==> x.len() == y.len(),
        x.len() == y.len() && (forall|i: int|
            0 <= i < x.len() ==> has_key(y, (#[trigger] x[i]).0)) ==> same_names(x, y),
{
    lemma_names(x);
    lemma_names(y);
    let (a, b) = (names_of(x).to_set(), names_of(y).to_set());
    if same_names(x, y) {
        assert(a =~= b);
    }
    if x.len() == y.len() && (forall|i: int| 0 <= i < x.len() ==> has_key(y, (#[trigger] x[i]).0)) {
        assert forall|key: Seq<char>| #[trigger] a.contains(key) implies b.contains(key) by {
            assert(has_key(x, key));
            let i = choose|i: int| 0 <= i < x.len() && (#[trigger] x[i]).0 == key;
            assert(has_key(y, x[i].0));
        }
        vstd::set_lib::lemma_subset_equality(a, b);
        assert forall|key: Seq<char>| #[trigger] has_key(x, key) == has_key(y, key) by {
            assert(a.contains(key) == b.contains(key));
        }
    }
}

/// A law of equality: tables are equal if they have the same names and equal values under each of
/// them, in whatever order.
pub proof fn law_equal_tables(x: ArgsView, y: ArgsView)
    requires
        distinct(x),
        distinct(y),
    ensures
        same_value(ValueView::Table(x), ValueView::Table(y)) <==> same_names(x, y) && forall|
            key: Seq<char>,
        | #[trigger]
            has_key(x, key) ==> same_value(lookup(x, key)->0, lookup(y, key)->0),
{
    let (a, b) = (ValueView::Table(x), ValueView::Table(y));
    assert(same_value(a, b) == same_args(x, y));
    lemma_same_names(x, y);
    if same_args(x, y) {
        assert(same_names(x, y)) by {
            assert forall|i: int| 0 <= i < x.len() implies has_key(y, (#[trigger] x[i]).0) by {}
        }
        assert forall|key: Seq<char>| #[trigger] has_key(x, key) implies same_value(
            lookup(x, key)->0,
            lookup(y, key)->0,
        ) by {
            let i = choose|i: int| 0 <= i < x.len() && (#[trigger] x[i]).0 == key;
            lemma_found(x, i);
            assert(has_key(y, x[i].0) && same_value(x[i].1, y[key_index(y, x[i].0)].1));
        }
    }
    if same_names(x, y) && forall|key: Seq<char>| #[trigger]
        has_key(x, key) ==> same_value(lookup(x, key)->0, lookup(y, key)->0) {
        assert forall|i: int| 0 <= i < x.len() implies has_key(y, (#[trigger] x[i]).0)
            && same_value(x[i].1, y[key_index(y, x[i].0)].1) by {
            lemma_found(x, i);
            assert(has_key(x, x[i].0));
            assert(has_key(y, x[i].0));
        }
    }
}

/// A law of equality: the fields of registered syntax nodes are equal if they have the same names
/// and the same texts, in whatever order.
pub proof fn law_equal_fields(x: Seq<(Seq<char>, Seq<char>)>, y: Seq<(Seq<char>, Seq<char>)>)
    requires
        distinct(x),
        distinct(y),
    ensures
        same_typed(TypedView::Struct(x), TypedView::Struct(y)) <==> forall|key: Seq<char>| #[trigger]
            lookup(x, key) == lookup(y, key),
        same_typed(TypedView::Unit, TypedView::Unit),
        !same_typed(TypedView::Unit, TypedView::Struct(y)),
        !same_typed(TypedView::Struct(x), TypedView::Unit),
{
    lemma_same_names(x, y);
    if same_typed(TypedView::Struct(x), TypedView::Struct(y)) {
        assert forall|i: int| 0 <= i < x.len() implies has_key(y, (#[trigger] x[i]).0) by {
            assert(lookup(y, x[i].0) == Some(x[i].1));
        }
        assert(same_names(x, y));
        assert forall|key: Seq<char>| #[trigger] lookup(x, key) == lookup(y, key) by {
            assert(has_key(x, key) == has_key(y, key));
            if has_key(x, key) {
                let i = choose|i: int| 0 <= i < x.len() && (#[trigger] x[i]).0 == key;
                lemma_found(x, i);
                assert(lookup(y, x[i].0) == Some(x[i].1));
            }
        }
    }
    if forall|key: Seq<char>| #[trigger] lookup(x, key) == lookup(y, key) {
        assert forall|key: Seq<char>| #[trigger] has_key(x, key) == has_key(y, key) by {
            assert(lookup(x, key) == lookup(y, key));
        }
        assert forall|i: int| 0 <= i < x.len() implies lookup(y, (#[trigger] x[i]).0) == Some(
            x[i].1,
        ) by {
            lemma_found(x, i);
            assert(lookup(x, x[i].0) == lookup(y, x[i].0));
        }
    }
}

/// Nodes are equal one by one.
pub open spec fn alike(x: Seq<NodeView>, y: Seq<NodeView>) -> bool {
    x.len() == y.len() && forall|i: int| 0 <= i < x.len() ==> same_node(#[trigger] x[i], y[i])
}

/// Two tables are equal as values.
pub open spec fn alike_args(x: ArgsView, y: ArgsView) -> bool {
    same_value(ValueView::Table(x), ValueView::Table(y))
}

/// A law of equality: lists of nodes are equal node by node, in order, and only with lists of the
/// same kind.
pub proof fn law_equal_node_lists(x: Seq<NodeView>, y: Seq<NodeView>, b: NodeView)
    ensures
        same_node(NodeView::Sequence(x), NodeView::Sequence(y)) == alike(x, y),
        same_node(NodeView::Parallel(x), NodeView::Parallel(y)) == alike(x, y),
        same_node(NodeView::Deck(x), NodeView::Deck(y)) == alike(x, y),
        !(b is Sequence) ==> !same_node(NodeView::Sequence(x), b) && !same_node(
            b,
            NodeView::Sequence(x),
        ),
        !(b is Parallel) ==> !same_node(NodeView::Parallel(x), b) && !same_node(
            b,
            NodeView::Parallel(x),
        ),
        !(b is Deck) ==> !same_node(NodeView::Deck(x), b) && !same_node(b, NodeView::Deck(x)),
{
    assert(same_nodes(x, y) == alike(x, y));
    assert(same_node(NodeView::Sequence(x), NodeView::Sequence(y)) == same_nodes(x, y));
    assert(same_node(NodeView::Parallel(x), NodeView::Parallel(y)) == same_nodes(x, y));
    assert(same_node(NodeView::Deck(x), NodeView::Deck(y)) == same_nodes(x, y));
}

/// A law of equality: nodes with names and arguments are equal if both are, and if they are of the
/// same kind.
pub proof fn law_equal_calls(e: Seq<char>, f: Seq<char>, x: ArgsView, y: ArgsView, b: NodeView)
    ensures
        same_node(NodeView::Emit(e, x), NodeView::Emit(f, y)) == (e == f && alike_args(x, y)),
        same_node(NodeView::Action(e, x), NodeView::Action(f, y)) == (e == f && alike_args(x, y)),
        same_node(NodeView::Spell(e, x), NodeView::Spell(f, y)) == (e == f && alike_args(x, y)),
        same_node(NodeView::Modifier(e, x), NodeView::Modifier(f, y)) == (e == f && alike_args(
            x,
            y,
        )),
        !(b is Emit) ==> !same_node(NodeView::Emit(e, x), b),
        !(b is Action) ==> !same_node(NodeView::Action(e, x), b),
        !(b is Spell) ==> !same_node(NodeView::Spell(e, x), b),
        !(b is Modifier) ==> !same_node(NodeView::Modifier(e, x), b),
{
    assert(alike_args(x, y) == same_args(x, y));
    assert(same_node(NodeView::Emit(e, x), NodeView::Emit(f, y)) == (e == f && same_args(x, y)));
    assert(same_node(NodeView::Action(e, x), NodeView::Action(f, y)) == (e == f && same_args(
        x,
        y,
    )));
    assert(same_node(NodeView::Spell(e, x), NodeView::Spell(f, y)) == (e == f && same_args(x, y)));
    assert(same_node(NodeView::Modifier(e, x), NodeView::Modifier(f, y)) == (e == f && same_args(
        x,
        y,
    )));
}

/// A law of equality: nodes with a node below them are equal if all that stands in them is.
pub proof fn law_equal_nestings(
    e: Seq<char>,
    f: Seq<char>,
    v: ValueView,
    w: ValueView,
    a: NodeView,
    b: NodeView,
    r: (Option<Seq<char>>, Option<Seq<char>>, Option<Seq<char>>),
    s: (Option<Seq<char>>, Option<Seq<char>>, Option<Seq<char>>),
)
    ensures
        same_node(NodeView::Delay(e, Box::new(a)), NodeView::Delay(f, Box::new(b))) == (e == f
            && same_node(a, b)),
        same_node(NodeView::On(e, Box::new(a)), NodeView::On(f, Box::new(b))) == (e == f
            && same_node(a, b)),
        same_node(NodeView::Let(e, v, Box::new(a)), NodeView::Let(f, w, Box::new(b))) == (e == f
            && same_value(v, w) && same_node(a, b)),
        same_node(
            NodeView::Repeat { times: r.0, duration: r.1, interval: r.2, node: Box::new(a) },
            NodeView::Repeat { times: s.0, duration: s.1, interval: s.2, node: Box::new(b) },
        ) == (r == s && same_node(a, b)),
{
    reveal_with_fuel(same_node, 2);
}

/// A law of equality: registered syntax nodes are equal if their names and their fields are.
pub proof fn law_equal_syntax_nodes(e: Seq<char>, f: Seq<char>, x: TypedView, y: TypedView, b: NodeView)
    ensures
        same_node(NodeView::Typed { name: e, args: x }, NodeView::Typed { name: f, args: y }) == (e
            == f && same_typed(x, y)),
        !(b is Typed) ==> !same_node(NodeView::Typed { name: e, args: x }, b),
{
}

/// A law of equality: conditions are equal if what they ask and both of their branches are.
pub proof fn law_equal_conditions(
    e: Seq<char>,
    f: Seq<char>,
    a: NodeView,
    b: NodeView,
    c: NodeView,
    d: NodeView,
)
    ensures
        same_node(
            NodeView::If { condition: e, then_node: Box::new(a), else_node: Some(Box::new(c)) },
            NodeView::If { condition: f, then_node: Box::new(b), else_node: Some(Box::new(d)) },
        ) == (e == f && same_node(a, b) && same_node(c, d)),
        same_node(
            NodeView::If { condition: e, then_node: Box::new(a), else_node: None },
            NodeView::If { condition: f, then_node: Box::new(b), else_node: None },
        ) == (e == f && same_node(a, b)),
        !same_node(
            NodeView::If { condition: e, then_node: Box::new(a), else_node: None },
            NodeView::If { condition: f, then_node: Box::new(b), else_node: Some(Box::new(d)) },
        ),
        !same_node(
            NodeView::If { condition: e, then_node: Box::new(a), else_node: Some(Box::new(c)) },
            NodeView::If { condition: f, then_node: Box::new(b), else_node: None },
        ),
{
    reveal_with_fuel(same_node, 2);
}

/// A law of characters: the letters are the capitals from 65 and the small ones from 97 on,
/// twenty-six each, which lie 32 apart; the digits are the ten from 48 on; the two do not overlap,
/// and neither is a blank.
pub proof fn law_letters_and_digits(c: char, d: char)
    ensures
        (c as u32) + 32 == d as u32 && 65 <= c as u32 <= 90 ==> is_letter(c) && is_letter(d),
        is_letter(c) ==> 65 <= c as u32 <= 90 || 97 <= c as u32 <= 122,
        is_digit(c) <==> 48 <= c as u32 <= 57,
        !(is_letter(c) && is_digit(c)),
        is_letter(c) || is_digit(c) ==> !white_space(c),
{
}

/// A law of characters: every character up to the space that ends a line or moves within it is a
/// blank, and so is the space; no visible character of the same range is.
pub proof fn law_blanks(c: char)
    ensures
        c == ' ' || c == '\t' || c == '\n' || c == '\r' || c as u32 == 0xb || c as u32 == 0xc
            ==> white_space(c),
        0x21 <= c as u32 <= 0x7e ==> !white_space(c),
        (c as u32) < 0x9 ==> !white_space(c),
        c as u32 == 0x85 || c as u32 == 0xa0 || c as u32 == 0x1680 || 0x2000 <= c as u32 <= 0x200a
            || 0x2028 <= c as u32 <= 0x2029 || c as u32 == 0x202f || c as u32 == 0x205f || c as u32
            == 0x3000 ==> white_space(c),
        c as u32 > 0x3000 ==> !white_space(c),
{
}

} // verus!
