use skill_flow::cast::{CastRejection, SkillRuntimeCounters};
use skill_flow::context::SkillContext;
use skill_flow::error::{
    ExprMessage, SkillError, SkillExecutionError, SkillGraphError, SkillMessage, SkillNodeId,
};
use skill_flow::expr::eval_skill_expr;
use skill_flow::lexer::Token;
use skill_flow::number::{NumberOp, NumberTable, SkillNumber};
use skill_flow::requirement::RequirementFailure;
use skill_flow::table::KeyedMap;
use skill_flow::value::{SkillExpr, SkillId, SkillNode, SkillValue};

fn num(x: f64) -> SkillNumber {
    SkillNumber { bits: x.to_bits() }
}

fn runtime(message: SkillMessage) -> String {
    SkillError::Runtime(message).text("?")
}

#[test]
fn errors_are_put_into_words() {
    let name = || "fire".to_owned();
    for (error, expected) in [
        (SkillError::Ron("1:2".to_owned()), "RON parse failed: 1:2"),
        (
            SkillError::invalid_skill("fire", "expected `id`"),
            "skill `fire` is invalid: expected `id`",
        ),
        (SkillError::UnknownAction(name()), "action `fire` is not registered"),
        (SkillError::UnknownModifier(name()), "modifier `fire` is not registered"),
        (SkillError::UnknownCastModel(name()), "cast model `fire` is not registered"),
        (SkillError::runtime("expected number"), "runtime error: expected number"),
    ] {
        assert_eq!(error.text(""), expected);
    }
}

#[test]
fn runtime_messages_are_put_into_words() {
    let node = SkillNode::Sequence(vec![]);
    for (message, expected) in [
        (
            SkillMessage::ExpectedNumber(SkillValue::Null),
            "runtime error: expected number, got `?`",
        ),
        (
            SkillMessage::Graph(SkillGraphError::MissingRoot),
            "runtime error: skill graph has no root node",
        ),
        (
            SkillMessage::Graph(SkillGraphError::MissingNode(SkillNodeId(12))),
            "runtime error: skill graph references missing node `SkillNodeId(12)`",
        ),
        (
            SkillMessage::Graph(SkillGraphError::Cycle { at: SkillNodeId(0) }),
            "runtime error: skill graph contains a cycle at node `SkillNodeId(0)`",
        ),
        (
            SkillMessage::Execution(SkillExecutionError::StepBudgetExhausted { steps: 1024 }),
            "runtime error: step budget exhausted after 1024 steps",
        ),
        (
            SkillMessage::Execution(SkillExecutionError::Runtime("x".to_owned())),
            "runtime error: runtime error: x",
        ),
        (
            SkillMessage::ChildCount {
                node: 4,
                slot: "then".to_owned(),
                count: 2,
            },
            "runtime error: node `?` expected exactly one `then` child, got 2",
        ),
        (
            SkillMessage::NoComponent { node: 4 },
            "runtime error: node entity `?` has no skill node component",
        ),
        (
            SkillMessage::PayloadNode(SkillValue::Null),
            "runtime error: expected payload skill node, got `?`",
        ),
        (
            SkillMessage::PayloadList(vec![]),
            "runtime error: could not decode erased payload node `?`",
        ),
        (
            SkillMessage::UnsupportedCard(node),
            "runtime error: unsupported wand deck card `?`",
        ),
    ] {
        assert_eq!(runtime(message), expected);
    }
}

#[test]
fn expression_messages_are_put_into_words() {
    for (message, expected) in [
        (ExprMessage::InvalidNumber("1.2.3".to_owned()), "invalid number `1.2.3`"),
        (ExprMessage::UnterminatedString, "unterminated string literal"),
        (ExprMessage::UnexpectedCharacter('#'), "unexpected character `?`"),
        (ExprMessage::ExpectedRParen, "expected `)`"),
        (ExprMessage::UnexpectedToken(Token::RParen), "unexpected token `?`"),
        (ExprMessage::UnexpectedEnd, "unexpected end of expression"),
        (ExprMessage::ExpectedNumber(SkillValue::Null), "expected number, got `?`"),
        (ExprMessage::TrailingToken, "unexpected trailing token"),
    ] {
        let error = SkillError::Expr {
            expr: "e".to_owned(),
            message,
        };
        assert_eq!(error.text("?"), format!("expression `e` failed: {expected}"));
    }
}

#[test]
fn refusals_are_put_into_words() {
    let text = |failure| CastRejection::Requirement(failure).text("2.50", "1");
    assert_eq!(
        text(RequirementFailure::OnCooldown {
            skill: SkillId::from("fire"),
            remaining: num(2.5),
        }),
        "skill `fire` is on cooldown for 2.50s"
    );
    assert_eq!(
        text(RequirementFailure::NotEnough {
            resource: "mana".to_owned(),
            required: num(2.5),
            available: num(1.0),
        }),
        "not enough `mana`: required 2.50, available 1"
    );
    assert_eq!(
        text(RequirementFailure::Invalid(SkillError::UnknownAction("x".to_owned()))),
        "action `x` is not registered"
    );
    assert_eq!(CastRejection::Text("no".to_owned()).text("", ""), "no");
}

#[test]
fn further_answers_leave_a_value_as_it_was() {
    let ctx = SkillContext::new(
        SkillId::from("s"),
        KeyedMap::new(),
        Default::default(),
        None,
        1,
    );
    let expr = SkillExpr::new("1 + 2".to_owned());
    let mut numbers = NumberTable::new();
    numbers.learn_parsed("1".to_owned(), Some(num(1.0)));
    numbers.learn_parsed("2".to_owned(), Some(num(2.0)));
    numbers.learn_result(NumberOp::Add, num(1.0), num(2.0), num(3.0));
    let before = eval_skill_expr(&expr, &ctx, &numbers).unwrap();
    numbers.learn_result(NumberOp::Mul, num(1.0), num(2.0), num(2.0));
    numbers.learn_parsed("3".to_owned(), Some(num(3.0)));
    numbers.learn_shown(num(1.0), "1".to_owned());
    assert_eq!(eval_skill_expr(&expr, &ctx, &numbers).unwrap(), before);
    assert_eq!(before, SkillValue::Number(num(3.0)));
}

#[test]
fn counters_count_from_one() {
    let mut counters = SkillRuntimeCounters::new();
    assert!(!counters.is_exhausted());
    assert_eq!(counters.next_execution_id(), 1);
    assert_eq!(counters.next_execution_id(), 2);
}
