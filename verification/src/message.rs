//! Errors in words.
use crate::cast::{CastRejection, RejectionView};
use crate::error::{
    ErrorView, ExecutionErrorView, ExprMessage, ExprMessageView, MessageView, SkillError,
    SkillExecutionError, SkillGraphError, SkillMessage, SkillNodeId,
};
use crate::decimal::{decimal, decimal_text};
use crate::requirement::{FailureView, RequirementFailure};
use vstd::prelude::*;

verus! {

/// A text between two others.
pub open spec fn quoted(before: Seq<char>, t: Seq<char>, after: Seq<char>) -> Seq<char> {
    before + t + after
}

fn quote(before: &str, t: &str, after: &str) -> (r: String)
    ensures
        r@ == quoted(before@, t@, after@),
{
    let mut s: String = before.to_owned();
    s.append(t);
    s.append(after);
    s
}

/// What is wrong with the shape of a graph, in words.
pub open spec fn graph_text(e: SkillGraphError) -> Seq<char> {
    match e {
        SkillGraphError::MissingRoot => "skill graph has no root node"@,
        SkillGraphError::MissingNode(id) => quoted(
            "skill graph references missing node `SkillNodeId("@,
            decimal(id.0 as nat),
            ")`"@,
        ),
        SkillGraphError::Cycle { at } => quoted(
            "skill graph contains a cycle at node `SkillNodeId("@,
            decimal(at.0 as nat),
            ")`"@,
        ),
    }
}

impl SkillGraphError {
    /// The fault in words.
    pub fn text(&self) -> (r: String)
        ensures
            r@ == graph_text(*self),
    {
        match self {
            SkillGraphError::MissingRoot => "skill graph has no root node".to_owned(),
            SkillGraphError::MissingNode(id) => quote(
                "skill graph references missing node `SkillNodeId(",
                decimal_text(id.0 as u64).as_str(),
                ")`",
            ),
            SkillGraphError::Cycle { at } => quote(
                "skill graph contains a cycle at node `SkillNodeId(",
                decimal_text(at.0 as u64).as_str(),
                ")`",
            ),
        }
    }
}

/// What is wrong with an execution, in words.
pub open spec fn execution_text(e: ExecutionErrorView) -> Seq<char> {
    match e {
        ExecutionErrorView::StepBudgetExhausted { steps } => quoted(
            "step budget exhausted after "@,
            decimal(steps as nat),
            " steps"@,
        ),
        ExecutionErrorView::Runtime(t) => "runtime error: "@ + t,
    }
}

impl SkillExecutionError {
    /// The fault in words.
    pub fn text(&self) -> (r: String)
        ensures
            r@ == execution_text(self@),
    {
        match self {
            SkillExecutionError::StepBudgetExhausted { steps } => quote(
                "step budget exhausted after ",
                decimal_text(*steps as u64).as_str(),
                " steps",
            ),
            SkillExecutionError::Runtime(t) => {
                let mut s: String = "runtime error: ".to_owned();
                s.append(t.as_str());
                s
            },
        }
    }
}

/// What is wrong with an expression, in words. A token, character or value that it speaks of is
/// shown as `detail`.
pub open spec fn expr_text(m: ExprMessageView, detail: Seq<char>) -> Seq<char> {
    match m {
        ExprMessageView::InvalidNumber(t) => quoted("invalid number `"@, t, "`"@),
        ExprMessageView::UnterminatedString => "unterminated string literal"@,
        ExprMessageView::UnexpectedCharacter(_) => quoted(
            "unexpected character `"@,
            detail,
            "`"@,
        ),
        ExprMessageView::ExpectedRParen => "expected `)`"@,
        ExprMessageView::UnexpectedToken(_) => quoted("unexpected token `"@, detail, "`"@),
        ExprMessageView::UnexpectedEnd => "unexpected end of expression"@,
        ExprMessageView::ExpectedNumber(_) => quoted("expected number, got `"@, detail, "`"@),
        ExprMessageView::TrailingToken => "unexpected trailing token"@,
    }
}

impl ExprMessage {
    /// The fault in words, with the text for what it speaks of.
    pub fn text(&self, detail: &str) -> (r: String)
        ensures
            r@ == expr_text(self@, detail@),
    {
        match self {
            ExprMessage::InvalidNumber(t) => quote("invalid number `", t.as_str(), "`"),
            ExprMessage::UnterminatedString => "unterminated string literal".to_owned(),
            ExprMessage::UnexpectedCharacter(_) => quote("unexpected character `", detail, "`"),
            ExprMessage::ExpectedRParen => "expected `)`".to_owned(),
            ExprMessage::UnexpectedToken(_) => quote("unexpected token `", detail, "`"),
            ExprMessage::UnexpectedEnd => "unexpected end of expression".to_owned(),
            ExprMessage::ExpectedNumber(_) => quote("expected number, got `", detail, "`"),
            ExprMessage::TrailingToken => "unexpected trailing token".to_owned(),
        }
    }
}

/// A message in words. An entity or value that it speaks of is shown as `detail`.
pub open spec fn message_text(m: MessageView, detail: Seq<char>) -> Seq<char> {
    match m {
        MessageView::Text(t) => t,
        MessageView::ExpectedNumber(_) => quoted("expected number, got `"@, detail, "`"@),
        MessageView::Graph(e) => graph_text(e),
        MessageView::Execution(e) => execution_text(e),
        MessageView::ChildCount { node, slot, count } => quoted("node `"@, detail, "` "@) + quoted(
            "expected exactly one `"@,
            slot,
            "` child, got "@,
        ) + decimal(count),
        MessageView::NoComponent { node } => quoted(
            "node entity `"@,
            detail,
            "` has no skill node component"@,
        ),
        MessageView::PayloadNode(_) => quoted("expected payload skill node, got `"@, detail, "`"@),
        MessageView::PayloadList(_) => quoted(
            "could not decode erased payload node `"@,
            detail,
            "`"@,
        ),
        MessageView::UnsupportedCard(_) => quoted("unsupported wand deck card `"@, detail, "`"@),
    }
}

impl SkillMessage {
    /// The message in words, with the text for what it speaks of.
    pub fn text(&self, detail: &str) -> (r: String)
        ensures
            r@ == message_text(self@, detail@),
    {
        match self {
            SkillMessage::Text(t) => t.clone(),
            SkillMessage::ExpectedNumber(_) => quote("expected number, got `", detail, "`"),
            SkillMessage::Graph(e) => e.text(),
            SkillMessage::Execution(e) => e.text(),
            SkillMessage::ChildCount { slot, count, .. } => {
                let mut s: String = quote("node `", detail, "` ");
                s.append(quote("expected exactly one `", slot.as_str(), "` child, got ").as_str());
                s.append(decimal_text(*count as u64).as_str());
                s
            },
            SkillMessage::NoComponent { .. } => quote(
                "node entity `",
                detail,
                "` has no skill node component",
            ),
            SkillMessage::PayloadNode(_) => quote("expected payload skill node, got `", detail, "`"),
            SkillMessage::PayloadList(_) => quote(
                "could not decode erased payload node `",
                detail,
                "`",
            ),
            SkillMessage::UnsupportedCard(_) => quote("unsupported wand deck card `", detail, "`"),
        }
    }
}

/// An error in words. What it speaks of and what only a host can show is shown as `detail`.
pub open spec fn error_text(e: ErrorView, detail: Seq<char>) -> Seq<char> {
    match e {
        ErrorView::Ron(t) => "RON parse failed: "@ + t,
        ErrorView::InvalidSkill(name, m) => quoted("skill `"@, name, "` is invalid: "@)
            + message_text(m, detail),
        ErrorView::UnknownAction(id) => quoted("action `"@, id, "` is not registered"@),
        ErrorView::UnknownModifier(id) => quoted("modifier `"@, id, "` is not registered"@),
        ErrorView::UnknownCastModel(id) => quoted("cast model `"@, id, "` is not registered"@),
        ErrorView::Expr { expr, message } => quoted("expression `"@, expr, "` failed: "@)
            + expr_text(message, detail),
        ErrorView::Runtime(m) => "runtime error: "@ + message_text(m, detail),
        ErrorView::Unanswered(_) => quoted("unanswered: "@, detail, ""@),
    }
}

impl SkillError {
    /// The error in words, with the text for what it speaks of.
    pub fn text(&self, detail: &str) -> (r: String)
        ensures
            r@ == error_text(self@, detail@),
    {
        match self {
            SkillError::Ron(t) => {
                let mut s: String = "RON parse failed: ".to_owned();
                s.append(t.as_str());
                s
            },
            SkillError::InvalidSkill(name, m) => {
                let mut s: String = quote("skill `", name.as_str(), "` is invalid: ");
                s.append(m.text(detail).as_str());
                s
            },
            SkillError::UnknownAction(id) => quote("action `", id.as_str(), "` is not registered"),
            SkillError::UnknownModifier(id) => quote(
                "modifier `",
                id.as_str(),
                "` is not registered",
            ),
            SkillError::UnknownCastModel(id) => quote(
                "cast model `",
                id.as_str(),
                "` is not registered",
            ),
            SkillError::Expr { expr, message } => {
                let mut s: String = quote("expression `", expr.as_str(), "` failed: ");
                s.append(message.text(detail).as_str());
                s
            },
            SkillError::Runtime(m) => {
                let mut s: String = "runtime error: ".to_owned();
                s.append(m.text(detail).as_str());
                s
            },
            SkillError::Unanswered(_) => quote("unanswered: ", detail, ""),
        }
    }
}

/// A refusal in words. The first number that it speaks of is shown as `first`, or what an error
/// speaks of; the second number as `second`.
pub open spec fn rejection_text(x: RejectionView, first: Seq<char>, second: Seq<char>) -> Seq<char> {
    match x {
        RejectionView::Text(t) => t,
        RejectionView::Requirement(FailureView::Invalid(e)) => error_text(e, first),
        RejectionView::Requirement(FailureView::OnCooldown { skill, remaining }) => quoted(
            "skill `"@,
            skill,
            "` is on cooldown for "@,
        ) + first + "s"@,
        RejectionView::Requirement(FailureView::NotEnough { resource, required, available }) => {
            quoted("not enough `"@, resource, "`: required "@) + first + ", available "@ + second
        },
    }
}

impl CastRejection {
    /// The refusal in words, with the texts for what it speaks of.
    pub fn text(&self, first: &str, second: &str) -> (r: String)
        ensures
            r@ == rejection_text(self@, first@, second@),
    {
        match self {
            CastRejection::Text(t) => t.clone(),
            CastRejection::Requirement(RequirementFailure::Invalid(e)) => e.text(first),
            CastRejection::Requirement(RequirementFailure::OnCooldown { skill, .. }) => {
                let mut s: String = quote("skill `", skill.0.as_str(), "` is on cooldown for ");
                s.append(first);
                s.append("s");
                s
            },
            CastRejection::Requirement(RequirementFailure::NotEnough { resource, .. }) => {
                let mut s: String = quote("not enough `", resource.as_str(), "`: required ");
                s.append(first);
                s.append(", available ");
                s.append(second);
                s
            },
        }
    }
}

} // verus!
