use skill_flow::append::append_graph_node;
use skill_flow::compile::{compile_skill, compile_skill_graph};
use skill_flow::component::SkillCompileContext;
use skill_flow::def::{default_cast_model, SkillDef};
use skill_flow::error::{SkillError, SkillGraphError, SkillMessage, SkillNodeId};
use skill_flow::gameplay::register_gameplay_primitives;
use skill_flow::graph::{slot_nodes, SkillGraph, SkillGraphNodeKind};
use skill_flow::number::NumberTable;
use skill_flow::payload::erased_node_from_value;
use skill_flow::registry::SkillRegistry;
use skill_flow::table::KeyedMap;
use skill_flow::value::{
    SkillArgs, SkillExpr, SkillId, SkillNode, SkillTypedArgs, SkillValue,
};

fn text(value: &str) -> SkillValue {
    SkillValue::String(value.to_owned())
}

fn args(entries: Vec<(&str, SkillValue)>) -> SkillArgs {
    let mut out = KeyedMap::new();
    for (key, value) in entries {
        out.insert(key.to_owned(), value);
    }
    out
}

fn action(id: &str, entries: Vec<(&str, SkillValue)>) -> SkillNode {
    SkillNode::Action(id.to_owned(), args(entries))
}

fn skill(id: &str, body: SkillNode) -> SkillDef {
    SkillDef {
        id: SkillId::new(id.to_owned()),
        tags: vec!["a".to_owned(), "a".to_owned(), "b".to_owned()],
        cast_model: default_cast_model(),
        requirements: Vec::new(),
        params: args(vec![("p", text("v"))]),
        modifiers: Vec::new(),
        body,
    }
}

fn registry() -> SkillRegistry {
    let mut registry = SkillRegistry::with_core();
    register_gameplay_primitives(&mut registry);
    registry
}

fn graph() -> SkillGraph {
    SkillGraph::new(SkillId::from("g"))
}

#[test]
fn nodes_are_numbered_by_their_places() {
    let mut g = graph();
    let a = g.add_node(SkillGraphNodeKind::Sequence);
    let b = g.add_node(SkillGraphNodeKind::Parallel);
    assert_eq!((a, b), (SkillNodeId(0), SkillNodeId(1)));
    assert!(g.node(a).is_some());
    assert!(g.node(SkillNodeId(2)).is_none());
    g.node_mut(a).unwrap().kind = SkillGraphNodeKind::WithSkillContext;
    assert!(matches!(
        g.node(a).unwrap().kind,
        SkillGraphNodeKind::WithSkillContext
    ));
    assert!(g.node_mut(SkillNodeId(9)).is_none());
}

#[test]
fn slots_keep_their_order() {
    let mut g = graph();
    let root = g.add_node(SkillGraphNodeKind::Sequence);
    let a = g.add_node(SkillGraphNodeKind::Parallel);
    let b = g.add_node(SkillGraphNodeKind::Parallel);
    g.push_child(root, "items".to_owned(), b).unwrap();
    g.push_child(root, "items".to_owned(), a).unwrap();
    g.push_payload(root, "on_hit".to_owned(), a).unwrap();
    let node = g.node(root).unwrap();
    assert_eq!(slot_nodes(&node.children, "items"), vec![b, a]);
    assert_eq!(slot_nodes(&node.payloads, "on_hit"), vec![a]);
    assert!(slot_nodes(&node.children, "other").is_empty());
    assert_eq!(
        g.push_child(root, "items".to_owned(), SkillNodeId(7)),
        Err(SkillGraphError::MissingNode(SkillNodeId(7)))
    );
    assert_eq!(
        g.push_payload(SkillNodeId(8), "x".to_owned(), a),
        Err(SkillGraphError::MissingNode(SkillNodeId(8)))
    );
}

#[test]
fn validation_finds_missing_nodes_and_cycles() {
    let mut g = graph();
    assert_eq!(g.validate(), Err(SkillGraphError::MissingRoot));
    g.set_root(SkillNodeId(3));
    assert_eq!(
        g.validate(),
        Err(SkillGraphError::MissingNode(SkillNodeId(3)))
    );
    let a = g.add_node(SkillGraphNodeKind::Sequence);
    let b = g.add_node(SkillGraphNodeKind::Sequence);
    let c = g.add_node(SkillGraphNodeKind::Sequence);
    g.set_root(a);
    g.push_child(a, "items".to_owned(), b).unwrap();
    g.push_child(a, "items".to_owned(), c).unwrap();
    g.push_payload(b, "on_hit".to_owned(), c).unwrap();
    assert_eq!(g.validate(), Ok(()));
    g.push_payload(c, "back".to_owned(), b).unwrap();
    assert_eq!(g.validate(), Err(SkillGraphError::Cycle { at: b }));
    g.nodes[2].payloads = KeyedMap::new();
    g.nodes[1]
        .children
        .insert("items".to_owned(), vec![SkillNodeId(40)]);
    assert_eq!(
        g.validate(),
        Err(SkillGraphError::MissingNode(SkillNodeId(40)))
    );
}

#[test]
fn a_cycle_that_the_root_does_not_reach_is_no_fault() {
    let mut g = graph();
    let a = g.add_node(SkillGraphNodeKind::Sequence);
    let b = g.add_node(SkillGraphNodeKind::Sequence);
    g.set_root(a);
    g.push_child(b, "items".to_owned(), b).unwrap();
    assert_eq!(g.validate(), Ok(()));
    g.set_root(b);
    assert_eq!(g.validate(), Err(SkillGraphError::Cycle { at: b }));
}

#[test]
fn trees_become_graphs_in_order() {
    let tree = SkillNode::Sequence(vec![
        SkillNode::Delay(
            SkillExpr::new("1".to_owned()),
            Box::new(action("trace", vec![])),
        ),
        SkillNode::If {
            condition: SkillExpr::new("true".to_owned()),
            then_node: Box::new(action("trace", vec![])),
            else_node: Some(Box::new(action("trace", vec![]))),
        },
        SkillNode::On("hit".to_owned(), Box::new(SkillNode::Parallel(vec![]))),
    ]);
    let mut g = graph();
    let root = append_graph_node(&tree, &mut g).unwrap();
    assert_eq!(root, SkillNodeId(0));
    g.set_root(root);
    assert_eq!(g.nodes.len(), 8);
    assert_eq!(
        slot_nodes(&g.nodes[0].children, "items"),
        vec![SkillNodeId(1), SkillNodeId(3), SkillNodeId(6)]
    );
    assert_eq!(slot_nodes(&g.nodes[1].children, "then"), vec![SkillNodeId(2)]);
    assert_eq!(slot_nodes(&g.nodes[3].children, "then"), vec![SkillNodeId(4)]);
    assert_eq!(slot_nodes(&g.nodes[3].children, "else"), vec![SkillNodeId(5)]);
    assert_eq!(slot_nodes(&g.nodes[6].payloads, "hit"), vec![SkillNodeId(7)]);
    assert_eq!(g.validate(), Ok(()));
}

#[test]
fn a_tree_that_cannot_be_appended_leaves_what_came_before_the_fault() {
    let mut g = graph();
    let old = g.add_node(SkillGraphNodeKind::Parallel);
    let tree = SkillNode::Sequence(vec![
        action("trace", vec![]),
        SkillNode::On(
            "hit".to_owned(),
            Box::new(SkillNode::Deck(vec![])),
        ),
        action("trace", vec![]),
    ]);
    assert!(append_graph_node(&tree, &mut g).is_err());
    assert_eq!(g.nodes.len(), 4);
    assert!(matches!(g.nodes[old.0 as usize].kind, SkillGraphNodeKind::Parallel));
    assert!(matches!(g.nodes[1].kind, SkillGraphNodeKind::Sequence));
    assert_eq!(slot_nodes(&g.nodes[1].children, "items"), vec![SkillNodeId(2)]);
    assert!(matches!(g.nodes[3].kind, SkillGraphNodeKind::WaitEvent { .. }));
    assert!(slot_nodes(&g.nodes[3].payloads, "hit").is_empty());
}

#[test]
fn arguments_that_stand_for_nodes_become_payloads() {
    let node = SkillNode::Action(
        "spawn_projectile".to_owned(),
        args(vec![
            ("prefab", text("orb")),
            ("extra", SkillValue::Node(Box::new(SkillNode::Sequence(vec![])))),
            (
                "on_hit",
                SkillValue::List(vec![text("trace"), SkillValue::Table(args(vec![]))]),
            ),
            (
                "payload",
                SkillValue::List(vec![
                    text("hit"),
                    SkillValue::List(vec![text("trace"), SkillValue::Table(args(vec![]))]),
                ]),
            ),
        ]),
    );
    let mut g = graph();
    append_graph_node(&node, &mut g).unwrap();
    match &g.nodes[0].kind {
        SkillGraphNodeKind::Extension { constructor, args } => {
            assert_eq!(constructor, "spawn_projectile");
            assert_eq!(args.len(), 1);
            assert_eq!(args.get("prefab"), Some(&text("orb")));
        }
        other => panic!("{other:?}"),
    }
    assert_eq!(slot_nodes(&g.nodes[0].payloads, "extra"), vec![SkillNodeId(1)]);
    assert_eq!(slot_nodes(&g.nodes[0].payloads, "on_hit"), vec![SkillNodeId(2)]);
    assert_eq!(slot_nodes(&g.nodes[0].payloads, "payload"), vec![SkillNodeId(3)]);
    assert!(matches!(
        g.nodes[3].kind,
        SkillGraphNodeKind::WaitEvent { .. }
    ));
    let bad = action("a", vec![("on_hit", text("no node"))]);
    assert!(matches!(
        append_graph_node(&bad, &mut graph()),
        Err(SkillError::Runtime(SkillMessage::PayloadNode(_)))
    ));
    let nested = action(
        "a",
        vec![(
            "list",
            SkillValue::List(vec![SkillValue::Node(Box::new(SkillNode::Sequence(vec![])))]),
        )],
    );
    assert!(matches!(
        append_graph_node(&nested, &mut graph()),
        Err(SkillError::Runtime(SkillMessage::Text(_)))
    ));
}

#[test]
fn lists_are_read_as_nodes() {
    let call = || SkillValue::List(vec![text("trace"), SkillValue::Table(args(vec![]))]);
    let trace = || action("trace", vec![]);
    assert_eq!(erased_node_from_value(&call()).unwrap(), trace());
    assert_eq!(
        erased_node_from_value(&SkillValue::List(vec![text("hit"), call()])).unwrap(),
        SkillNode::On("hit".to_owned(), Box::new(trace()))
    );
    assert_eq!(
        erased_node_from_value(&SkillValue::List(vec![SkillValue::List(vec![call(), call()])]))
            .unwrap(),
        SkillNode::Sequence(vec![trace(), trace()])
    );
    assert_eq!(
        erased_node_from_value(&SkillValue::List(vec![call(), call()])).unwrap(),
        SkillNode::Sequence(vec![trace(), trace()])
    );
    assert_eq!(
        erased_node_from_value(&SkillValue::List(vec![])).unwrap(),
        SkillNode::Sequence(vec![])
    );
    assert!(matches!(
        erased_node_from_value(&SkillValue::List(vec![text("a")])),
        Err(SkillError::Runtime(SkillMessage::PayloadList(_)))
    ));
    assert!(matches!(
        erased_node_from_value(&SkillValue::Null),
        Err(SkillError::Runtime(SkillMessage::PayloadNode(SkillValue::Null)))
    ));
}

#[test]
fn syntax_for_cast_models_must_not_remain() {
    let numbers = NumberTable::new();
    for body in [
        SkillNode::Deck(vec![]),
        SkillNode::Spell("s".to_owned(), args(vec![])),
        SkillNode::Modifier("m".to_owned(), args(vec![])),
    ] {
        match compile_skill(&skill("s", body), &registry(), &numbers) {
            Err(SkillError::Runtime(SkillMessage::Text(t))) => {
                assert_eq!(t, "extension node remained after cast model compilation");
            }
            other => panic!("{other:?}"),
        }
    }
    let typed = SkillNode::Typed {
        name: "Dash".to_owned(),
        args: SkillTypedArgs::Unit,
    };
    assert!(matches!(
        compile_skill(&skill("s", typed), &registry(), &numbers),
        Err(SkillError::InvalidSkill(name, _)) if name == "Dash"
    ));
}

#[test]
fn actions_check_their_arguments_when_a_skill_is_compiled() {
    let numbers = NumberTable::new();
    for (id, reason) in [
        ("spawn_projectile", "expected `prefab` or `payload`"),
        ("damage", "expected `amount`"),
        ("apply_buff", "expected `buff`"),
        ("spell", "expected `id`"),
    ] {
        match compile_skill(&skill("s", action(id, vec![])), &registry(), &numbers) {
            Err(SkillError::InvalidSkill(name, SkillMessage::Text(t))) => {
                assert_eq!(name, id);
                assert_eq!(t, reason);
            }
            other => panic!("{other:?}"),
        }
    }
}

#[test]
fn a_compiled_skill_carries_its_definition() {
    let numbers = NumberTable::new();
    let def = skill("s", action("trace", vec![("label", text("x"))]));
    let compiled = compile_skill(&def, &registry(), &numbers).unwrap();
    assert_eq!(compiled.id, SkillId::from("s"));
    assert_eq!(compiled.tags.len(), 2);
    assert_eq!(compiled.cast_model, "direct");
    assert_eq!(compiled.graph.root, Some(SkillNodeId(0)));
    assert_eq!(compiled.graph.params.get("p"), Some(&text("v")));
    let graph = compile_skill_graph(&def, &registry(), &numbers).unwrap();
    assert_eq!(graph.nodes.len(), 1);
    let ctx = SkillCompileContext::new(&compiled);
    assert_eq!(ctx.step_budget, 1024);
    assert_eq!(ctx.stats.get("p"), Some(&text("v")));
}

#[test]
fn registries_know_what_they_hold() {
    let registry = registry();
    assert!(registry.has_cast_model("direct"));
    assert!(registry.has_cast_model("wand_deck"));
    assert!(!registry.has_modifier("none"));
    assert!(!registry.has_dsl_node("none"));
    assert!(registry.actions().has_action("damage"));
    assert!(registry.action("damage").is_some());
    assert!(registry.action("none").is_none());
    assert!(SkillRegistry::new().cast_model("direct").is_none());
}
