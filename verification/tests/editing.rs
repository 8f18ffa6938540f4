use skill_flow::asset::{
    compile_dirty_skill_assets, document_skills, ParsedSource, ReloadOutcome, SkillAssetDocument,
    SkillAssetSources,
};
use skill_flow::component::{SkillGraphHandle, SkillRuntimeSet};
use skill_flow::decimal::decimal_text;
use skill_flow::decode::{
    build_node, expr_from_value, node_shape, pick_value, typed_args_source, DecodeFault, ExprFault,
    IfField, NodeParts, NodeShape, RepeatField, ValueReadings,
};
use skill_flow::def::{default_cast_model, SkillDef};
use skill_flow::editor::{
    SkillEditorConfig, SkillEditorError, SkillEditorPlugin, SkillEditorState, SkillFileEntry,
    DEFAULT_SKILL_TEMPLATE,
};
use skill_flow::error::SkillError;
use skill_flow::gameplay::register_gameplay_primitives;
use skill_flow::library::SkillLibrary;
use skill_flow::naming::{is_skill_file, next_new_skill_path, text_before};
use skill_flow::number::{NumberTable, SkillNumber};
use skill_flow::registry::SkillRegistry;
use skill_flow::scan::{scan_skill_files, SkillDirEntry};
use skill_flow::table::KeyedMap;
use skill_flow::value::{
    SkillArgs, SkillExpr, SkillId, SkillNode, SkillSpecialValue, SkillTypedArgs, SkillValue,
};

fn text(value: &str) -> SkillValue {
    SkillValue::String(value.to_owned())
}

fn number(value: f64) -> SkillValue {
    SkillValue::Number(SkillNumber {
        bits: value.to_bits(),
    })
}

fn args(entries: Vec<(&str, SkillValue)>) -> SkillArgs {
    let mut out = KeyedMap::new();
    for (key, value) in entries {
        out.insert(key.to_owned(), value);
    }
    out
}

fn action(id: &str, entries: Vec<(&str, SkillValue)>) -> SkillNode {
    SkillNode::Action(id.to_owned(), args(entries))
}

fn skill(id: &str, body: SkillNode) -> SkillDef {
    SkillDef {
        id: SkillId::new(id.to_owned()),
        tags: Vec::new(),
        cast_model: default_cast_model(),
        requirements: Vec::new(),
        params: args(vec![]),
        modifiers: Vec::new(),
        body,
    }
}

fn registry() -> SkillRegistry {
    let mut registry = SkillRegistry::with_core();
    register_gameplay_primitives(&mut registry);
    registry
}

fn entry(name: &str, is_file: bool) -> SkillDirEntry {
    SkillDirEntry {
        path: format!("skills/{name}"),
        name: Some(name.to_owned()),
        is_file,
    }
}

fn traced(id: &str, label: &str) -> SkillDef {
    skill(id, action("trace", vec![("label", text(label))]))
}

fn loaded(
    names: Vec<&str>,
    parsed: &Vec<Result<SkillDef, String>>,
    library: &mut SkillLibrary,
) -> SkillEditorState {
    let entries = names.into_iter().map(|n| entry(n, true)).collect();
    let mut editor = SkillEditorState::new();
    let numbers = NumberTable::new();
    let files = scan_skill_files(&entries);
    let path = editor
        .load_dir(files, parsed, &registry(), library, &numbers)
        .unwrap();
    if let Some(path) = path {
        let place = editor.files.iter().position(|f| f.path == path).unwrap();
        editor
            .open_file(
                path,
                format!("source of {}", place),
                &parsed[place],
                &registry(),
                library,
                &numbers,
            )
            .unwrap();
    }
    editor
}

#[test]
fn editor_scans_skill_files_and_keeps_invalid_file_diagnostics() {
    let entries = vec![
        entry("good.skill.ron", true),
        entry("ignored.ron", true),
        entry("broken.skill.ron", true),
        entry("folder.skill.ron", false),
        SkillDirEntry {
            path: "skills/?".to_owned(),
            name: None,
            is_file: true,
        },
    ];
    let files = scan_skill_files(&entries);
    let labels: Vec<String> = files.iter().map(|f| f.label()).collect();
    assert_eq!(labels, vec!["broken.skill.ron", "good.skill.ron"]);

    let mut library = SkillLibrary::new();
    let mut editor = SkillEditorState::new();
    let parsed = vec![Err("1:7: Unexpected end".to_owned()), Ok(traced("good", "ok"))];
    let numbers = NumberTable::new();
    let open = editor
        .load_dir(files, &parsed, &registry(), &mut library, &numbers)
        .unwrap();
    assert_eq!(open.as_deref(), Some("skills/broken.skill.ron"));
    assert_eq!(editor.files.len(), 2);
    assert!(library.get(&SkillId::from("good")).is_some());
    let broken = &editor.files[0];
    assert_eq!(
        broken.parse_error.as_deref(),
        Some("RON parse failed: 1:7: Unexpected end")
    );
    assert_eq!(editor.files[1].skill_id, Some(SkillId::from("good")));
    assert!(editor.files[1].parse_error.is_none());
}

#[test]
fn editor_revalidates_dirty_source_without_polluting_last_compiled_skill() {
    let mut library = SkillLibrary::new();
    let mut editor = loaded(
        vec!["live.skill.ron"],
        &vec![Ok(traced("live", "v1"))],
        &mut library,
    );
    assert!(library.get(&SkillId::from("live")).is_some());
    assert_eq!(
        editor.selected_preview_skill_id(),
        Some(SkillId::from("live"))
    );

    editor
        .edit_source(
            "changed".to_owned(),
            &Ok(skill("live", action("missing", vec![]))),
            &registry(),
            &mut library,
            &NumberTable::new(),
        )
        .unwrap();

    assert!(editor.dirty);
    assert!(editor.diagnostics.compile_fault.is_some());
    assert!(library.get(&SkillId::from("live")).is_some());
    assert!(editor.compiled_cache.contains_key("live"));
    assert_eq!(
        editor.selected_preview_skill_id(),
        Some(SkillId::from("live"))
    );
    assert!(editor.preview_is_stale());
}

#[test]
fn editor_save_rules_keep_paths_and_generate_new_suffixes() {
    assert_eq!(
        next_new_skill_path(&vec!["new_skill.skill.ron".to_owned()]),
        "new_skill_2.skill.ron"
    );

    let mut library = SkillLibrary::new();
    let mut editor = loaded(
        vec!["existing.skill.ron"],
        &vec![Ok(traced("before", "v1"))],
        &mut library,
    );
    let after = Ok(traced("after", "v2"));
    editor
        .edit_source(
            "id: \"after\"".to_owned(),
            &after,
            &registry(),
            &mut library,
            &NumberTable::new(),
        )
        .unwrap();
    assert_eq!(
        editor.save_target(&after).unwrap(),
        "skills/existing.skill.ron"
    );
    editor
        .save_current(&after, &registry(), &NumberTable::new())
        .unwrap();
    assert!(!editor.dirty);
    assert_eq!(editor.files[0].path, "skills/existing.skill.ron");
    assert_eq!(editor.files[0].skill_id, Some(SkillId::from("after")));
    assert!(library.get(&SkillId::from("before")).is_none());
}

#[test]
fn editor_structured_edit_updates_source_diagnostics_and_preview() {
    let mut library = SkillLibrary::new();
    let mut first = traced("live", "v1");
    first.tags = vec!["spell".to_owned()];
    let mut editor = loaded(vec!["live.skill.ron"], &vec![Ok(first)], &mut library);

    let mut def = editor.current_def.clone().unwrap();
    def.id = SkillId::from("edited");
    def.tags.push("projectile".to_owned());
    def.params.insert("damage".to_owned(), number(42.0));
    editor
        .edit_source(
            "id: \"edited\"".to_owned(),
            &Ok(def),
            &registry(),
            &mut library,
            &NumberTable::new(),
        )
        .unwrap();

    assert!(editor.dirty);
    assert_eq!(editor.diagnostics.skill_id, Some(SkillId::from("edited")));
    assert!(editor.source.contains(r#"id: "edited""#));
    assert!(library.get(&SkillId::from("edited")).is_some());
    assert!(library.get(&SkillId::from("live")).is_none());
    assert_eq!(
        editor.selected_preview_skill_id(),
        Some(SkillId::from("edited"))
    );
    assert!(!editor.preview_is_stale());
}

#[test]
fn editor_structured_save_round_trips_pretty_ron_to_disk() {
    let mut library = SkillLibrary::new();
    let mut editor = loaded(
        vec!["live.skill.ron"],
        &vec![Ok(traced("live", "v1"))],
        &mut library,
    );
    let mut def = editor.current_def.clone().unwrap();
    def.body = SkillNode::Sequence(vec![
        action("trace", vec![("label", text("a"))]),
        SkillNode::Delay(
            SkillExpr::new("0.25".to_owned()),
            Box::new(action("trace", vec![("label", text("b"))])),
        ),
    ]);
    let parsed = Ok(def);
    let numbers = NumberTable::new();
    editor
        .edit_source("new".to_owned(), &parsed, &registry(), &mut library, &numbers)
        .unwrap();
    assert_eq!(editor.save_target(&parsed).unwrap(), "skills/live.skill.ron");
    editor
        .save_current_with_library(&parsed, &registry(), &mut library, &numbers)
        .unwrap();
    assert!(!editor.dirty);
    assert!(editor.files.iter().any(|file| {
        file.path == "skills/live.skill.ron"
            && file.parse_error.is_none()
            && file.compile_fault.is_none()
    }));
}

#[test]
fn the_same_source_is_no_edit() {
    let mut library = SkillLibrary::new();
    let mut editor = loaded(
        vec!["live.skill.ron"],
        &vec![Ok(traced("live", "v1"))],
        &mut library,
    );
    let same = editor.source.clone();
    editor
        .edit_source(
            same,
            &Err("not read".to_owned()),
            &registry(),
            &mut library,
            &NumberTable::new(),
        )
        .unwrap();
    assert!(!editor.dirty);
    assert!(editor.diagnostics.parse_error.is_none());
}

#[test]
fn saving_needs_a_readable_source_and_a_file() {
    let editor = SkillEditorState::new();
    assert!(matches!(
        editor.save_target(&Err("bad".to_owned())),
        Err(SkillEditorError::Skill(SkillError::Ron(t))) if t == "bad"
    ));
    assert!(matches!(
        editor.save_target(&Ok(traced("a", "b"))),
        Err(SkillEditorError::NoCurrentFile)
    ));
}

#[test]
fn a_source_that_cannot_be_read_is_not_saved() {
    let mut library = SkillLibrary::new();
    let mut editor = loaded(
        vec!["live.skill.ron"],
        &vec![Ok(traced("live", "v1"))],
        &mut library,
    );
    let bad = Err("bad".to_owned());
    let numbers = NumberTable::new();
    editor
        .edit_source("Skill(".to_owned(), &bad, &registry(), &mut library, &numbers)
        .unwrap();
    assert!(editor.dirty);
    assert!(matches!(
        editor.save_current(&bad, &registry(), &numbers),
        Err(SkillError::Ron(t)) if t == "bad"
    ));
    assert!(matches!(
        editor.save_current_with_library(&bad, &registry(), &mut library, &numbers),
        Err(SkillError::Ron(t)) if t == "bad"
    ));
    assert!(editor.dirty);
    assert!(library.get(&SkillId::from("live")).is_some());
    assert!(editor.last_io_error.is_none());
    editor
        .save_current(&Ok(traced("live", "v2")), &registry(), &numbers)
        .unwrap();
    assert!(!editor.dirty);
}

#[test]
fn new_skills_begin_with_the_template() {
    let mut library = SkillLibrary::new();
    let mut editor = SkillEditorState::new();
    editor
        .create_new(
            "skills/new_skill.skill.ron".to_owned(),
            Some("new_skill.skill.ron".to_owned()),
            &Ok(traced("new_skill", "x")),
            &registry(),
            &mut library,
            &NumberTable::new(),
        )
        .unwrap();
    assert_eq!(editor.source, DEFAULT_SKILL_TEMPLATE);
    assert!(editor.source.starts_with("Skill(\n  id: \"new_skill\","));
    assert!(editor.dirty);
    assert_eq!(editor.files.len(), 1);
    assert_eq!(
        editor.current_file.as_deref(),
        Some("skills/new_skill.skill.ron")
    );
    assert_eq!(
        editor.delete_current(&mut library).as_deref(),
        Some("skills/new_skill.skill.ron")
    );
    assert!(library.get(&SkillId::from("new_skill")).is_none());
    assert!(editor.selected_compiled().is_none());
    assert!(SkillEditorState::new().delete_current(&mut library).is_none());
}

#[test]
fn an_empty_directory_clears_the_editor() {
    let mut library = SkillLibrary::new();
    let mut editor = loaded(
        vec!["live.skill.ron"],
        &vec![Ok(traced("live", "v1"))],
        &mut library,
    );
    let open = editor
        .load_dir(vec![], &vec![], &registry(), &mut library, &NumberTable::new())
        .unwrap();
    assert!(open.is_none());
    assert!(editor.source.is_empty());
    assert!(editor.current_def.is_none());
    assert!(editor.selected_preview_skill_id().is_none());
}

#[test]
fn the_open_file_stays_open() {
    let mut library = SkillLibrary::new();
    let mut editor = SkillEditorState::new();
    editor.current_file = Some("skills/b.skill.ron".to_owned());
    let entries = vec![entry("b.skill.ron", true), entry("a.skill.ron", true)];
    let parsed = vec![
        Ok(traced("a", "1")),
        Ok(skill("b", action("missing", vec![]))),
    ];
    let open = editor
        .load_dir(
            scan_skill_files(&entries),
            &parsed,
            &registry(),
            &mut library,
            &NumberTable::new(),
        )
        .unwrap();
    assert_eq!(open.as_deref(), Some("skills/b.skill.ron"));
    assert!(library.invalid(&SkillId::from("b")).is_some());
    assert!(editor.files[1].compile_fault.is_some());
}

#[test]
fn editor_settings_have_defaults() {
    let config = SkillEditorConfig::default();
    assert_eq!(config.skills_dir, "assets/skills");
    assert!(!config.autosave_on_compile_success);
    let plugin = SkillEditorPlugin::new(config.clone());
    assert_eq!(plugin.config().skills_dir, config.skills_dir);
    assert_eq!(
        SkillFileEntry::from_path("x".to_owned(), None).label(),
        "<unknown>"
    );
}

#[test]
fn new_names_are_the_first_that_are_free() {
    assert_eq!(next_new_skill_path(&vec![]), "new_skill.skill.ron");
    let taken: Vec<String> = std::iter::once("new_skill.skill.ron".to_owned())
        .chain((2..12).map(|i| format!("new_skill_{i}.skill.ron")))
        .collect();
    assert_eq!(next_new_skill_path(&taken), "new_skill_12.skill.ron");
    for n in [0, 7, 10, 99, 1000, 123456789] {
        assert_eq!(decimal_text(n), n.to_string());
    }
    assert!(is_skill_file("a.skill.ron"));
    assert!(!is_skill_file("a.ron"));
    assert!(!is_skill_file("skill.ron"));
    for (a, b) in [("", "a"), ("a", "ab"), ("B", "a"), ("a", "é"), ("é", "\u{1f600}")] {
        assert!(text_before(a, b) && !text_before(b, a));
        assert!(a < b);
    }
    assert!(text_before("same", "same"));
}

#[test]
fn nodes_are_put_together_by_name() {
    assert_eq!(node_shape("Sequence"), NodeShape::Nodes);
    assert_eq!(node_shape("Dash"), NodeShape::Typed);
    let leaf = || SkillNode::Sequence(vec![]);
    let e = || SkillExpr::new("1".to_owned());
    let build = |name: &str, parts: NodeParts| build_node(name.to_owned(), parts).unwrap();
    assert_eq!(
        build("Parallel", NodeParts::Nodes(vec![leaf()])),
        SkillNode::Parallel(vec![leaf()])
    );
    assert_eq!(build("Deck", NodeParts::Nodes(vec![])), SkillNode::Deck(vec![]));
    assert_eq!(
        build("Delay", NodeParts::ExprAndNode(e(), leaf())),
        SkillNode::Delay(e(), Box::new(leaf()))
    );
    assert_eq!(
        build("Let", NodeParts::NameValueAndNode("x".to_owned(), SkillValue::Null, leaf())),
        SkillNode::Let("x".to_owned(), SkillValue::Null, Box::new(leaf()))
    );
    assert_eq!(
        build("On", NodeParts::NameAndNode("hit".to_owned(), leaf())),
        SkillNode::On("hit".to_owned(), Box::new(leaf()))
    );
    for (name, node) in [
        ("Emit", SkillNode::Emit("n".to_owned(), args(vec![]))),
        ("Action", SkillNode::Action("n".to_owned(), args(vec![]))),
        ("Spell", SkillNode::Spell("n".to_owned(), args(vec![]))),
        ("Modifier", SkillNode::Modifier("n".to_owned(), args(vec![]))),
    ] {
        assert_eq!(build(name, NodeParts::NameAndArgs("n".to_owned(), args(vec![]))), node);
    }
    assert_eq!(
        build("Dash", NodeParts::Typed(SkillTypedArgs::Unit)),
        SkillNode::Typed {
            name: "Dash".to_owned(),
            args: SkillTypedArgs::Unit
        }
    );
    assert_eq!(
        build_node("On".to_owned(), NodeParts::Nodes(vec![])).err(),
        Some(DecodeFault::WrongParts)
    );
}

#[test]
fn the_last_of_equal_fields_counts() {
    let leaf = || SkillNode::Sequence(vec![]);
    let e = |t: &str| SkillExpr::new(t.to_owned());
    let repeat = build_node(
        "Repeat".to_owned(),
        NodeParts::RepeatFields(vec![
            RepeatField::Times(Some(e("1"))),
            RepeatField::Node(SkillNode::Parallel(vec![])),
            RepeatField::Other,
            RepeatField::Interval(Some(e("2"))),
            RepeatField::Duration(None),
            RepeatField::Times(None),
            RepeatField::Node(leaf()),
        ]),
    );
    assert_eq!(
        repeat.unwrap(),
        SkillNode::Repeat {
            times: None,
            duration: None,
            interval: Some(e("2")),
            node: Box::new(leaf())
        }
    );
    let missing = build_node("Repeat".to_owned(), NodeParts::RepeatFields(vec![]));
    assert_eq!(missing.err(), Some(DecodeFault::MissingNode));

    let condition = build_node(
        "If".to_owned(),
        NodeParts::IfFields(vec![
            IfField::ElseNode(Some(leaf())),
            IfField::Condition(e("a")),
            IfField::ThenNode(leaf()),
            IfField::Condition(e("b")),
            IfField::Other,
        ]),
    );
    assert_eq!(
        condition.unwrap(),
        SkillNode::If {
            condition: e("b"),
            then_node: Box::new(leaf()),
            else_node: Some(Box::new(leaf()))
        }
    );
    let fault = |fields: Vec<IfField>| {
        build_node("If".to_owned(), NodeParts::IfFields(fields)).err()
    };
    assert_eq!(
        fault(vec![IfField::ThenNode(leaf())]),
        Some(DecodeFault::MissingCondition)
    );
    assert_eq!(
        fault(vec![IfField::Condition(e("a"))]),
        Some(DecodeFault::MissingThenNode)
    );
}

fn no_readings() -> ValueReadings {
    ValueReadings {
        tagged: None,
        special: None,
        node: None,
        table: None,
        list: None,
        number: None,
        flag: None,
        text: None,
    }
}

#[test]
fn values_are_read_in_a_fixed_order() {
    let mut readings = no_readings();
    readings.flag = Some(true);
    readings.text = Some("t".to_owned());
    assert_eq!(pick_value(readings, "x"), Some(SkillValue::Bool(true)));
    let mut readings = no_readings();
    readings.special = Some(SkillSpecialValue::Tag("fire".to_owned()));
    readings.node = Some(SkillNode::Sequence(vec![]));
    assert_eq!(
        pick_value(readings, "x"),
        Some(SkillValue::Special(SkillSpecialValue::Tag("fire".to_owned())))
    );
    for nothing in ["()", "None", "null"] {
        assert_eq!(pick_value(no_readings(), nothing), Some(SkillValue::Null));
    }
    assert_eq!(pick_value(no_readings(), "?"), None);
}

#[test]
fn expressions_are_written_in_three_ways() {
    let read = |v: SkillValue| expr_from_value(v).map(|e| e.0);
    let special = SkillValue::Special(SkillSpecialValue::Expr("a".to_owned()));
    assert_eq!(read(special).unwrap(), "a");
    assert_eq!(read(text("b")).unwrap(), "b");
    assert_eq!(read(SkillValue::List(vec![text("c")])).unwrap(), "c");
    assert!(matches!(
        read(SkillValue::List(vec![SkillValue::Null])),
        Err(ExprFault::NotInList(SkillValue::Null))
    ));
    assert!(matches!(
        read(SkillValue::List(vec![])),
        Err(ExprFault::NotAnExpr(SkillValue::List(_)))
    ));
    assert!(matches!(
        read(SkillValue::Bool(true)),
        Err(ExprFault::NotAnExpr(SkillValue::Bool(true)))
    ));
}

#[test]
fn typed_fields_are_written_back() {
    assert_eq!(typed_args_source(&SkillTypedArgs::Unit), "()");
    let mut fields = KeyedMap::new();
    assert_eq!(
        typed_args_source(&SkillTypedArgs::Struct(KeyedMap::new())),
        "()"
    );
    fields.insert("speed".to_owned(), "4.0".to_owned());
    fields.insert("tag".to_owned(), "\"x\"".to_owned());
    assert_eq!(
        typed_args_source(&SkillTypedArgs::Struct(fields)),
        "(speed: 4.0, tag: \"x\")"
    );
}

#[test]
fn documents_hold_one_or_many_skills() {
    let ids = |skills: Vec<SkillDef>| -> Vec<String> {
        skills.into_iter().map(|s| s.id.0).collect()
    };
    let one = || traced("one", "x");
    let bad = || Err(SkillError::Ron("bad".to_owned()));
    assert_eq!(
        ids(document_skills(Some(vec![one(), one()]), None, bad()).unwrap()),
        vec!["one", "one"]
    );
    assert_eq!(
        ids(document_skills(None, Some(vec![one()]), bad()).unwrap()),
        vec!["one"]
    );
    assert_eq!(ids(document_skills(None, None, Ok(one())).unwrap()), vec!["one"]);
    assert!(matches!(
        document_skills(None, None, bad()),
        Err(SkillError::Ron(t)) if t == "bad"
    ));
    assert_eq!(
        ids(SkillAssetDocument::Named { skills: vec![one()] }.into_skills()),
        vec!["one"]
    );
    assert_eq!(ids(SkillAssetDocument::Many(vec![]).into_skills()).len(), 0);
}

#[test]
fn reloading_drops_the_skills_that_are_gone() {
    let mut sources = SkillAssetSources::new();
    let mut library = SkillLibrary::new();
    let numbers = NumberTable::new();
    sources.set_source("b".to_owned(), "1".to_owned());
    sources.set_source("a".to_owned(), "1".to_owned());
    assert_eq!(sources.dirty_keys(), vec!["b", "a"]);
    let parsed = Ok(vec![traced("x", "1"), traced("y", "1")]);
    let outcome = sources
        .compile_dirty_skill_asset("b", &parsed, &registry(), &mut library, &numbers)
        .unwrap();
    match outcome {
        ReloadOutcome::Reloaded(done) => {
            assert_eq!(done.key, "b");
            assert_eq!(done.skills, vec![SkillId::from("x"), SkillId::from("y")]);
        }
        other => panic!("{other:?}"),
    }
    assert_eq!(sources.dirty_keys(), vec!["a"]);
    library.set_entity(SkillId::from("y"), 5);

    sources.set_source("b".to_owned(), "2".to_owned());
    assert_eq!(sources.get("b").unwrap().version, 2);
    assert_eq!(sources.get("b").unwrap().applied_version, 1);
    let parsed = Ok(vec![traced("x", "2")]);
    sources
        .compile_dirty_skill_asset("b", &parsed, &registry(), &mut library, &numbers)
        .unwrap();
    assert!(library.get(&SkillId::from("x")).is_some());
    assert!(library.get(&SkillId::from("y")).is_none());
    assert!(library.get_entity(&SkillId::from("y")).is_none());

    sources.set_source("b".to_owned(), "3".to_owned());
    let parsed = Err(SkillError::Ron("oops".to_owned()));
    let outcome = sources
        .compile_dirty_skill_asset("b", &parsed, &registry(), &mut library, &numbers)
        .unwrap();
    assert!(matches!(outcome, ReloadOutcome::Failed(f) if f.key == "b"));
    assert!(library.get(&SkillId::from("x")).is_some());
    assert!(sources.get("b").unwrap().last_error.is_some());
    assert!(matches!(
        sources
            .compile_dirty_skill_asset("none", &parsed, &registry(), &mut library, &numbers)
            .unwrap(),
        ReloadOutcome::Missing
    ));
}

#[test]
fn only_changed_sources_are_loaded() {
    let mut sources = SkillAssetSources::new();
    let mut library = SkillLibrary::new();
    let numbers = NumberTable::new();
    sources.set_source("a".to_owned(), "1".to_owned());
    sources.set_source("b".to_owned(), "1".to_owned());
    let parsed = |key: &str, id: &str| ParsedSource {
        key: key.to_owned(),
        parsed: Ok(vec![traced(id, "x")]),
    };
    let both = vec![parsed("a", "x"), parsed("b", "y"), parsed("gone", "z")];
    let mut outcomes = Vec::new();
    compile_dirty_skill_assets(
        &both,
        &mut sources,
        &registry(),
        &mut library,
        &mut outcomes,
        &numbers,
    )
    .unwrap();
    assert_eq!(outcomes.len(), 2);
    assert!(library.get(&SkillId::from("z")).is_none());
    sources.set_source("b".to_owned(), "2".to_owned());
    compile_dirty_skill_assets(
        &both,
        &mut sources,
        &registry(),
        &mut library,
        &mut outcomes,
        &numbers,
    )
    .unwrap();
    assert_eq!(outcomes.len(), 3);
    assert!(matches!(&outcomes[2], ReloadOutcome::Reloaded(r) if r.key == "b"));
    assert!(sources.dirty_keys().is_empty());
}

#[test]
fn a_source_is_read_back_and_reported() {
    let mut sources = SkillAssetSources::new();
    let mut library = SkillLibrary::new();
    sources.set_source("a".to_owned(), "one".to_owned());
    sources.set_source("b".to_owned(), "two".to_owned());
    let entry = sources.get("a").unwrap();
    assert_eq!((entry.source.as_str(), entry.version, entry.applied_version), ("one", 1, 0));
    assert_eq!(sources.dirty_keys(), vec!["a", "b"]);
    let parsed = vec![
        ParsedSource {
            key: "a".to_owned(),
            parsed: Ok(vec![traced("y", "1"), traced("x", "2")]),
        },
        ParsedSource {
            key: "b".to_owned(),
            parsed: Err(SkillError::Ron("bad".to_owned())),
        },
    ];
    let mut outcomes = Vec::new();
    compile_dirty_skill_assets(
        &parsed,
        &mut sources,
        &registry(),
        &mut library,
        &mut outcomes,
        &NumberTable::new(),
    )
    .unwrap();
    assert!(matches!(
        &outcomes[0],
        ReloadOutcome::Reloaded(r)
            if r.key == "a" && r.skills == vec![SkillId::from("y"), SkillId::from("x")]
    ));
    assert!(matches!(&outcomes[1], ReloadOutcome::Failed(f) if f.key == "b"));
    assert!(sources.get("b").unwrap().last_error.is_some());
    assert!(sources.dirty_keys().is_empty());
    sources.set_source("a".to_owned(), "one".to_owned());
    assert_eq!(sources.get("a").unwrap().version, 2);
    assert_eq!(sources.dirty_keys(), vec!["a"]);
}

#[test]
fn stages_follow_each_other() {
    let mut order = vec![SkillRuntimeSet::Asset];
    while let Some(next) = order[order.len() - 1].next() {
        order.push(next);
    }
    assert_eq!(
        order,
        vec![
            SkillRuntimeSet::Asset,
            SkillRuntimeSet::Request,
            SkillRuntimeSet::Validate,
            SkillRuntimeSet::Execute,
            SkillRuntimeSet::Effect,
            SkillRuntimeSet::Message,
            SkillRuntimeSet::Trigger,
            SkillRuntimeSet::Cleanup,
        ]
    );
    assert_eq!(SkillGraphHandle::from(SkillId::from("x")).0, "x");
}
