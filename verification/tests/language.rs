use skill_flow::append::to_ecs_value;
use skill_flow::context::{SkillContext, SkillRuntimeSignal};
use skill_flow::def::tag_set;
use skill_flow::error::{ExprMessage, SkillError, SkillMessage};
use skill_flow::expr::{eval_skill_expr, get_path, looks_like_expr, resolve_args, resolve_value};
use skill_flow::lexer::{tokenize, LexFault};
use skill_flow::modifier::{
    stats_from_numbers, value_as_number, ModifierDef, StatModifier, StatOp,
};
use skill_flow::number::{NumberOp, NumberQuestion, NumberTable, SkillNumber};
use skill_flow::registry::SkillModifier;
use skill_flow::table::KeyedMap;
use skill_flow::text::is_whitespace;
use skill_flow::value::{
    SkillArgs, SkillExpr, SkillId, SkillNode, SkillSpecialValue, SkillTypedArgs, SkillValue,
};

fn num(x: f64) -> SkillNumber {
    SkillNumber { bits: x.to_bits() }
}

fn float(n: SkillNumber) -> f64 {
    f64::from_bits(n.bits)
}

fn answer(question: &NumberQuestion, numbers: &mut NumberTable) {
    match question {
        NumberQuestion::Result(op, a, b) => {
            let (x, y) = (float(*a), float(*b));
            let result = match op {
                NumberOp::Add => x + y,
                NumberOp::Sub => x - y,
                NumberOp::Mul => x * y,
                NumberOp::Div => x / y,
                NumberOp::Single => f64::from(x as f32),
                NumberOp::SubSingle => f64::from(x as f32 - y as f32),
            };
            numbers.learn_result(*op, *a, *b, num(result));
        }
        NumberQuestion::Parse(text) => {
            numbers.learn_parsed(text.clone(), text.parse::<f64>().ok().map(num));
        }
        NumberQuestion::Show(a) => numbers.learn_shown(*a, float(*a).to_string()),
        NumberQuestion::Span(a) => {
            let span = std::time::Duration::from_secs_f32(float(*a) as f32);
            numbers.learn_span(*a, span.as_nanos());
        }
        NumberQuestion::Count(a) => numbers.learn_count(*a, float(*a) as usize),
    }
}

fn ask<T>(mut step: impl FnMut(&NumberTable) -> Result<T, SkillError>) -> Result<T, SkillError> {
    let mut numbers = NumberTable::new();
    loop {
        match step(&numbers) {
            Err(SkillError::Unanswered(question)) => answer(&question, &mut numbers),
            other => return other,
        }
    }
}

fn text(value: &str) -> SkillValue {
    SkillValue::String(value.to_owned())
}

fn number(value: f64) -> SkillValue {
    SkillValue::Number(num(value))
}

fn expr(value: &str) -> SkillValue {
    SkillValue::Special(SkillSpecialValue::Expr(value.to_owned()))
}

fn args(entries: Vec<(&str, SkillValue)>) -> SkillArgs {
    let mut out = KeyedMap::new();
    for (key, value) in entries {
        out.insert(key.to_owned(), value);
    }
    out
}

fn context() -> SkillContext {
    let mut ctx = SkillContext::new(
        SkillId::from("spark"),
        args(vec![
            ("power", number(10.0)),
            ("shared", text("from stats")),
            (
                "deep",
                SkillValue::Table(args(vec![(
                    "inner",
                    SkillValue::Table(args(vec![("leaf", number(7.0))])),
                )])),
            ),
        ]),
        Default::default(),
        Some(3),
        9,
    );
    ctx.vars = args(vec![("shared", text("from vars")), ("flag", SkillValue::Bool(true))]);
    ctx
}

fn eval_in(source: &str, ctx: &SkillContext) -> Result<SkillValue, SkillError> {
    let e = SkillExpr::new(source.to_owned());
    ask(|n| eval_skill_expr(&e, ctx, n))
}

fn eval(source: &str) -> Result<SkillValue, SkillError> {
    eval_in(source, &context())
}

fn message(source: &str) -> ExprMessage {
    match eval(source) {
        Err(SkillError::Expr { expr, message }) => {
            assert_eq!(expr, source);
            message
        }
        other => panic!("{other:?}"),
    }
}

#[test]
fn operators_bind_by_their_level_and_from_left_to_right() {
    assert_eq!(eval("2 + 3 * 4").unwrap(), number(14.0));
    assert_eq!(eval("(2 + 3) * 4").unwrap(), number(20.0));
    assert_eq!(eval("10 - 4 - 3").unwrap(), number(3.0));
    assert_eq!(eval("16 / 4 / 2").unwrap(), number(2.0));
    assert_eq!(eval("1 < 2 == true").unwrap(), SkillValue::Bool(true));
    assert_eq!(eval("false && true || true").unwrap(), SkillValue::Bool(true));
    assert_eq!(eval("null ?? null ?? 5").unwrap(), number(5.0));
    assert_eq!(eval("--3").unwrap(), number(3.0));
    assert_eq!(eval("-2 * 3").unwrap(), number(-6.0));
    assert_eq!(eval("!!1").unwrap(), SkillValue::Bool(true));
}

#[test]
fn comparisons_follow_the_numbers() {
    for (source, expected) in [
        ("1 < 2", true),
        ("2 < 2", false),
        ("2 <= 2", true),
        ("3 > 2", true),
        ("2 >= 3", false),
        ("-1 < 0", true),
        ("0 == -0", true),
        ("0/0 == 0/0", false),
        ("0/0 != 0/0", true),
        ("0/0 < 1", false),
        ("1/0 > 99999", true),
    ] {
        assert_eq!(eval(source).unwrap(), SkillValue::Bool(expected), "{source}");
    }
}

#[test]
fn both_sides_of_an_operator_are_worked_out() {
    assert!(matches!(
        message("true || (1 + \"x\")"),
        ExprMessage::ExpectedNumber(SkillValue::String(s)) if s == "x"
    ));
    assert!(matches!(
        message("5 ?? (1 < \"x\")"),
        ExprMessage::ExpectedNumber(SkillValue::String(_))
    ));
}

#[test]
fn names_lead_to_stats_variables_events_and_the_skill() {
    let mut ctx = context();
    assert_eq!(eval_in("stat.power", &ctx).unwrap(), number(10.0));
    assert_eq!(eval_in("stat.deep.inner.leaf", &ctx).unwrap(), number(7.0));
    assert_eq!(eval_in("stat.deep.missing.leaf", &ctx).unwrap(), SkillValue::Null);
    assert_eq!(eval_in("stat.power.leaf", &ctx).unwrap(), SkillValue::Null);
    assert_eq!(eval_in("var.shared", &ctx).unwrap(), text("from vars"));
    assert_eq!(eval_in("vars.flag", &ctx).unwrap(), SkillValue::Bool(true));
    assert_eq!(eval_in("shared", &ctx).unwrap(), text("from vars"));
    assert_eq!(eval_in("power", &ctx).unwrap(), number(10.0));
    assert_eq!(eval_in("skill.id", &ctx).unwrap(), text("spark"));
    assert_eq!(eval_in("skill.other", &ctx).unwrap(), SkillValue::Null);
    assert_eq!(eval_in("event.target", &ctx).unwrap(), SkillValue::Null);
    assert_eq!(
        eval_in("vars", &ctx).unwrap(),
        SkillValue::Table(ctx_vars(&ctx))
    );
    ctx.source_event = Some(SkillRuntimeSignal::new(
        "hit".to_owned(),
        args(vec![("target", text("dummy"))]),
    ));
    assert_eq!(eval_in("event.target", &ctx).unwrap(), text("dummy"));
}

fn ctx_vars(ctx: &SkillContext) -> SkillArgs {
    match SkillValue::Table(ctx.clone().vars) {
        SkillValue::Table(m) => m,
        _ => unreachable!(),
    }
}

#[test]
fn each_fault_of_an_expression_is_reported() {
    assert!(matches!(message("1.2.3"), ExprMessage::InvalidNumber(t) if t == "1.2.3"));
    assert!(matches!(message("\"open"), ExprMessage::UnterminatedString));
    assert!(matches!(message("1 # 2"), ExprMessage::UnexpectedCharacter('#')));
    assert!(matches!(message("= 1"), ExprMessage::UnexpectedCharacter('=')));
    assert!(matches!(message("(1 + 2"), ExprMessage::ExpectedRParen));
    assert!(matches!(message("(1 2)"), ExprMessage::ExpectedRParen));
    assert!(matches!(message("* 2"), ExprMessage::UnexpectedToken(_)));
    assert!(matches!(message(")"), ExprMessage::UnexpectedToken(_)));
    assert!(matches!(message("1 +"), ExprMessage::UnexpectedEnd));
    assert!(matches!(message(""), ExprMessage::UnexpectedEnd));
    assert!(matches!(
        message("-\"x\""),
        ExprMessage::ExpectedNumber(SkillValue::String(_))
    ));
    assert!(matches!(message("1 2"), ExprMessage::TrailingToken));
}

#[test]
fn white_space_is_that_of_unicode() {
    for code in 0..=0x10ffff {
        if let Some(c) = char::from_u32(code) {
            assert_eq!(is_whitespace(c), c.is_whitespace(), "{code:#x}");
        }
    }
}

fn words(source: &str) -> Vec<String> {
    let mut numbers = NumberTable::new();
    loop {
        match tokenize(source, &numbers) {
            Ok(tokens) => return tokens.iter().map(|t| format!("{t:?}")).collect(),
            Err(LexFault::Ask(question)) => answer(&question, &mut numbers),
            Err(other) => panic!("{other:?}"),
        }
    }
}

#[test]
fn white_space_parts_words_and_changes_none() {
    for (a, b) in [
        ("1.5 + x", "y.z"),
        ("!", "<"),
        ("\"a  b\"", "\"c\""),
        ("(a", ")"),
        ("", "2"),
        ("2", ""),
    ] {
        let mut both = words(a);
        both.extend(words(b));
        for blank in [" ", "\t\n", "\u{2003}\u{a0}"] {
            assert_eq!(words(&format!("{a}{blank}{b}")), both);
        }
    }
    assert_eq!(words("! ! <  <"), vec!["Op(Not)", "Op(Not)", "Op(Lt)", "Op(Lt)"]);
}

#[test]
fn other_parts_of_a_context_decide_nothing() {
    let mut other = context();
    other.caster = Some(77);
    other.current_target = Some(78);
    other.execution_id = 79;
    other.step_budget_remaining = 0;
    for source in ["stat.power * 2", "shared", "skill.id", "event.target", "1 2"] {
        let (a, b) = (eval(source), eval_in(source, &other));
        assert_eq!(format!("{a:?}"), format!("{b:?}"));
    }
}

#[test]
fn blanks_of_every_kind_separate_words() {
    assert_eq!(eval("1\u{a0}+\u{2003}2\t").unwrap(), number(3.0));
    assert_eq!(eval(".5+.25").unwrap(), number(0.75));
    assert_eq!(eval("\"a b\"").unwrap(), text("a b"));
    assert_eq!(eval("$x ?? _y ?? 1").unwrap(), number(1.0));
}

#[test]
fn truth_depends_on_the_kind_of_value() {
    for (source, expected) in [
        ("!0", true),
        ("!\"\"", true),
        ("!\"a\"", false),
        ("!null", true),
        ("!stat.deep", false),
        ("!(0/0)", false),
    ] {
        assert_eq!(eval(source).unwrap(), SkillValue::Bool(expected), "{source}");
    }
}

#[test]
fn the_host_is_asked_one_question_at_a_time() {
    let e = SkillExpr::new("1 + 2".to_owned());
    let ctx = context();
    let mut numbers = NumberTable::new();
    match eval_skill_expr(&e, &ctx, &numbers) {
        Err(SkillError::Unanswered(NumberQuestion::Parse(t))) => assert_eq!(t, "1"),
        other => panic!("{other:?}"),
    }
    numbers.learn_parsed("1".to_owned(), Some(num(1.0)));
    numbers.learn_parsed("2".to_owned(), Some(num(2.0)));
    match eval_skill_expr(&e, &ctx, &numbers) {
        Err(SkillError::Unanswered(NumberQuestion::Result(NumberOp::Add, a, b))) => {
            assert_eq!((float(a), float(b)), (1.0, 2.0));
        }
        other => panic!("{other:?}"),
    }
    numbers.learn_result(NumberOp::Add, num(1.0), num(2.0), num(3.0));
    assert_eq!(eval_skill_expr(&e, &ctx, &numbers).unwrap(), number(3.0));
}

#[test]
fn values_are_resolved_inside_tables_and_lists() {
    let ctx = context();
    let value = SkillValue::List(vec![
        expr("stat.power * 2"),
        SkillValue::List(vec![text("stat.power")]),
        SkillValue::List(vec![text("plain")]),
        SkillValue::Table(args(vec![("x", expr("1 + 1")), ("y", SkillValue::Null)])),
    ]);
    let expected = SkillValue::List(vec![
        number(20.0),
        number(10.0),
        SkillValue::List(vec![text("plain")]),
        SkillValue::Table(args(vec![("x", number(2.0)), ("y", SkillValue::Null)])),
    ]);
    assert_eq!(ask(|n| resolve_value(&value, &ctx, n)).unwrap(), expected);
    let resolved = ask(|n| {
        resolve_args(&args(vec![("a", expr("stat.power")), ("b", text("b"))]), &ctx, n)
    })
    .unwrap();
    assert_eq!(resolved.key(0), "a");
    assert_eq!(resolved.value(0), &number(10.0));
    assert_eq!(resolved.value(1), &text("b"));
    let failing = args(vec![("a", expr("1 +")), ("b", expr("2 +"))]);
    match ask(|n| resolve_args(&failing, &ctx, n)) {
        Err(SkillError::Expr { expr, .. }) => assert_eq!(expr, "1 +"),
        other => panic!("{other:?}"),
    }
}

#[test]
fn a_text_in_a_one_item_list_may_look_like_an_expression() {
    for yes in ["stat.x", "event.y", "var.z", "vars.z", "a ?? b", "a * b", "a <= b", "a || b"] {
        assert!(looks_like_expr(yes), "{yes}");
    }
    for no in ["plain", "a*b", "statx", "a < b", ""] {
        assert!(!looks_like_expr(no), "{no}");
    }
}

#[test]
fn paths_walk_through_tables() {
    let table = args(vec![("a", SkillValue::Table(args(vec![("", number(1.0))])))]);
    assert_eq!(get_path(&table, ""), Some(SkillValue::Table(args(vec![(
        "a",
        SkillValue::Table(args(vec![("", number(1.0))]))
    )]))));
    assert_eq!(get_path(&table, "a."), Some(number(1.0)));
    assert_eq!(get_path(&table, "b"), None);
}

#[test]
fn tables_keep_the_order_of_first_insertion() {
    let mut table: KeyedMap<u64> = KeyedMap::new();
    assert!(table.is_empty());
    assert_eq!(table.insert("b".to_owned(), 1), None);
    assert_eq!(table.insert("a".to_owned(), 2), None);
    assert_eq!(table.insert("c".to_owned(), 3), None);
    assert_eq!(table.insert("b".to_owned(), 4), Some(1));
    assert_eq!(table.len(), 3);
    let names: Vec<&str> = (0..table.len()).map(|i| table.key(i).as_str()).collect();
    assert_eq!(names, vec!["b", "a", "c"]);
    assert_eq!(table.get("b"), Some(&4));
    assert_eq!(table.position("c"), Some(2));
    assert_eq!(table.shift_remove("b"), Some(4));
    assert_eq!(table.shift_remove("b"), None);
    assert_eq!(table.position("c"), Some(1));
    assert!(!table.contains_key("b"));
    assert_eq!(table.value(0), &2);
}

#[test]
fn equality_ignores_the_order_of_tables_but_not_of_lists() {
    let ab = args(vec![("a", number(1.0)), ("b", number(2.0))]);
    let ba = args(vec![("b", number(2.0)), ("a", number(1.0))]);
    assert_eq!(SkillValue::Table(ab), SkillValue::Table(ba));
    assert_ne!(
        SkillValue::List(vec![number(1.0), number(2.0)]),
        SkillValue::List(vec![number(2.0), number(1.0)])
    );
    assert_eq!(number(0.0), number(-0.0));
    assert_ne!(number(f64::NAN), number(f64::NAN));
    assert_ne!(number(1.0), text("1"));
    let typed = |entries: Vec<(&str, &str)>| {
        let mut m = KeyedMap::new();
        for (k, v) in entries {
            m.insert(k.to_owned(), v.to_owned());
        }
        SkillTypedArgs::Struct(m)
    };
    assert_eq!(typed(vec![("x", "1"), ("y", "2")]), typed(vec![("y", "2"), ("x", "1")]));
    assert_ne!(typed(vec![("x", "1")]), typed(vec![("x", "2")]));
    assert_ne!(typed(vec![]), SkillTypedArgs::Unit);
    let node = |label: &str| SkillNode::Emit("e".to_owned(), args(vec![("label", text(label))]));
    assert_eq!(node("a"), node("a"));
    assert_ne!(node("a"), node("b"));
}

#[test]
fn copies_equal_their_originals() {
    let node = SkillNode::If {
        condition: SkillExpr::new("true".to_owned()),
        then_node: Box::new(SkillNode::Let(
            "x".to_owned(),
            number(1.0),
            Box::new(SkillNode::Parallel(vec![])),
        )),
        else_node: Some(Box::new(SkillNode::Repeat {
            times: Some(SkillExpr::new("2".to_owned())),
            duration: None,
            interval: None,
            node: Box::new(SkillNode::Sequence(vec![])),
        })),
    };
    assert_eq!(node.clone(), node);
    let value = SkillValue::List(vec![SkillValue::Node(Box::new(node)), SkillValue::Null]);
    assert_eq!(value.clone(), value);
}

#[test]
fn tags_count_once() {
    let tags = tag_set(&vec!["a".to_owned(), "b".to_owned(), "a".to_owned()]);
    assert_eq!(tags.len(), 2);
    assert_eq!(tags.get_index(0).map(String::as_str), Some("a"));
    assert_eq!(tags.get_index(1).map(String::as_str), Some("b"));
}

#[test]
fn stat_modifiers_apply_by_tag_and_change_stats() {
    let modifier = StatModifier::from(ModifierDef {
        id: "m".to_owned(),
        applies_to_tags: vec!["fire".to_owned(), "ice".to_owned()],
        ops: vec![
            StatOp::Add("damage".to_owned(), expr("stat.power + 1")),
            StatOp::Mul("speed".to_owned(), number(3.0)),
            StatOp::Assign("label".to_owned(), expr("skill.id")),
        ],
    });
    assert!(modifier.applies(&tag_set(&vec!["ice".to_owned()])));
    assert!(!modifier.applies(&tag_set(&vec!["earth".to_owned()])));
    assert!(!modifier.applies(&tag_set(&vec![])));
    assert!(StatModifier::new(vec![], vec![]).applies(&tag_set(&vec![])));
    let ctx = context();
    let mut params = args(vec![("damage", text("not a number"))]);
    ask(|n| {
        let mut trial = args(vec![("damage", text("not a number"))]);
        modifier.apply(&mut trial, &ctx, n)?;
        params = trial;
        Ok(())
    })
    .unwrap();
    assert_eq!(params.get("damage"), Some(&number(11.0)));
    assert_eq!(params.get("speed"), Some(&number(3.0)));
    assert_eq!(params.get("label"), Some(&text("spark")));
    let wrong = text("x");
    match ask(|n| value_as_number(&wrong, &ctx, n)) {
        Err(SkillError::Runtime(SkillMessage::Text(t))) => assert_eq!(t, "expected number"),
        other => panic!("{other:?}"),
    }
}

#[test]
fn a_change_that_fails_keeps_those_before_it() {
    let modifier = StatModifier::new(
        vec![],
        vec![
            StatOp::Assign("a".to_owned(), number(1.0)),
            StatOp::Add("b".to_owned(), text("no number")),
            StatOp::Assign("c".to_owned(), number(3.0)),
        ],
    );
    let mut params = args(vec![("b", number(2.0))]);
    assert!(modifier.apply(&mut params, &context(), &NumberTable::new()).is_err());
    assert_eq!(params.get("a"), Some(&number(1.0)));
    assert_eq!(params.get("b"), Some(&number(2.0)));
    assert_eq!(params.get("c"), None);
}

#[test]
fn stats_come_from_named_numbers() {
    let stats = stats_from_numbers(&vec![
        ("a".to_owned(), num(1.0)),
        ("b".to_owned(), num(2.0)),
        ("a".to_owned(), num(3.0)),
    ]);
    assert_eq!(stats.len(), 2);
    assert_eq!(stats.key(0), "a");
    assert_eq!(stats.value(0), &number(3.0));
}

#[test]
fn skill_nodes_are_no_plain_values() {
    let nested = SkillValue::List(vec![SkillValue::Node(Box::new(SkillNode::Sequence(vec![])))]);
    match to_ecs_value(&nested) {
        Err(SkillError::Runtime(SkillMessage::Text(t))) => {
            assert_eq!(t, "nested SkillNode values must be compiled as payload slots");
        }
        other => panic!("{other:?}"),
    }
    assert_eq!(to_ecs_value(&number(2.0)).unwrap(), number(2.0));
}

#[test]
fn numbers_compare_and_negate_as_floats_do() {
    let cases = [0.0, -0.0, 1.0, -1.0, 1.5e300, f64::INFINITY, f64::NEG_INFINITY, f64::NAN, 5e-324];
    for a in cases {
        assert_eq!(float(num(a).negated()).to_bits(), (-a).to_bits());
        for b in cases {
            assert_eq!(num(a).equals(num(b)), a == b, "{a} {b}");
            assert_eq!(num(a).less(num(b)), a < b, "{a} {b}");
            assert_eq!(num(a).at_most(num(b)), a <= b, "{a} {b}");
            let larger = float(num(a).larger(num(b)));
            assert!(larger == a.max(b) || (larger.is_nan() && a.max(b).is_nan()), "{a} {b}");
        }
    }
    assert_eq!(float(SkillNumber::epsilon()), f64::EPSILON);
    assert_eq!(float(SkillNumber::one()), 1.0);
}
