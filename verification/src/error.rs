//! What can go wrong.
use crate::lexer::{Token, TokenView};
use crate::number::{NumberQuestion, QuestionView};
use crate::value::{
    copy_node, copy_value, copy_values, list_view, NodeView, SkillNode, SkillValue, ValueView,
};
use vstd::prelude::*;

verus! {

/// The number of a node in a skill graph.
#[derive(Clone, Copy, Debug, Default, PartialEq, Eq, PartialOrd, Ord, Hash, Structural)]
pub struct SkillNodeId(pub u32);

/// A fault in the shape of a skill graph.
#[derive(Clone, Copy, Debug, PartialEq, Eq, Structural)]
pub enum SkillGraphError {
    /// The graph has no root node.
    MissingRoot,
    /// The graph refers to a node that it does not have.
    MissingNode(SkillNodeId),
    /// The graph contains a cycle through the node.
    Cycle { at: SkillNodeId },
}

/// A fault of a running execution.
#[derive(Debug)]
pub enum SkillExecutionError {
    /// The step budget was used up.
    StepBudgetExhausted { steps: u32 },
    Runtime(String),
}

pub enum ExecutionErrorView {
    StepBudgetExhausted { steps: u32 },
    Runtime(Seq<char>),
}

impl SkillExecutionError {
    pub open spec fn view(&self) -> ExecutionErrorView {
        match self {
            SkillExecutionError::StepBudgetExhausted { steps } => {
                ExecutionErrorView::StepBudgetExhausted { steps: *steps }
            },
            SkillExecutionError::Runtime(t) => ExecutionErrorView::Runtime(t@),
        }
    }
}

impl Clone for SkillExecutionError {
    fn clone(&self) -> (r: SkillExecutionError)
        ensures
            r == *self,
    {
        match self {
            SkillExecutionError::StepBudgetExhausted { steps } => {
                SkillExecutionError::StepBudgetExhausted { steps: *steps }
            },
            SkillExecutionError::Runtime(t) => SkillExecutionError::Runtime(t.clone()),
        }
    }
}

/// Why an expression has no value.
#[derive(Debug)]
pub enum ExprMessage {
    InvalidNumber(String),
    UnterminatedString,
    UnexpectedCharacter(char),
    ExpectedRParen,
    UnexpectedToken(Token),
    UnexpectedEnd,
    ExpectedNumber(SkillValue),
    TrailingToken,
}

pub enum ExprMessageView {
    InvalidNumber(Seq<char>),
    UnterminatedString,
    UnexpectedCharacter(char),
    ExpectedRParen,
    UnexpectedToken(TokenView),
    UnexpectedEnd,
    ExpectedNumber(ValueView),
    TrailingToken,
}

impl ExprMessage {
    pub open spec fn view(&self) -> ExprMessageView {
        match self {
            ExprMessage::InvalidNumber(t) => ExprMessageView::InvalidNumber(t@),
            ExprMessage::UnterminatedString => ExprMessageView::UnterminatedString,
            ExprMessage::UnexpectedCharacter(c) => ExprMessageView::UnexpectedCharacter(*c),
            ExprMessage::ExpectedRParen => ExprMessageView::ExpectedRParen,
            ExprMessage::UnexpectedToken(t) => ExprMessageView::UnexpectedToken(t@),
            ExprMessage::UnexpectedEnd => ExprMessageView::UnexpectedEnd,
            ExprMessage::ExpectedNumber(v) => ExprMessageView::ExpectedNumber(v@),
            ExprMessage::TrailingToken => ExprMessageView::TrailingToken,
        }
    }
}

impl Clone for ExprMessage {
    fn clone(&self) -> (r: ExprMessage)
        ensures
            r@ == self@,
    {
        match self {
            ExprMessage::InvalidNumber(t) => ExprMessage::InvalidNumber(t.clone()),
            ExprMessage::UnterminatedString => ExprMessage::UnterminatedString,
            ExprMessage::UnexpectedCharacter(c) => ExprMessage::UnexpectedCharacter(*c),
            ExprMessage::ExpectedRParen => ExprMessage::ExpectedRParen,
            ExprMessage::UnexpectedToken(t) => ExprMessage::UnexpectedToken(t.clone()),
            ExprMessage::UnexpectedEnd => ExprMessage::UnexpectedEnd,
            ExprMessage::ExpectedNumber(v) => ExprMessage::ExpectedNumber(copy_value(v)),
            ExprMessage::TrailingToken => ExprMessage::TrailingToken,
        }
    }
}

/// What an error says. A host turns it into words.
#[derive(Debug)]
pub enum SkillMessage {
    Text(String),
    ExpectedNumber(SkillValue),
    Graph(SkillGraphError),
    Execution(SkillExecutionError),
    /// A node was expected to have exactly one child in a slot.
    ChildCount { node: u64, slot: String, count: usize },
    /// An entity has no skill node component.
    NoComponent { node: u64 },
    /// A value was expected to stand for a skill node.
    PayloadNode(SkillValue),
    /// A list could not be read as a skill node.
    PayloadList(Vec<SkillValue>),
    /// A node is no card of a wand deck.
    UnsupportedCard(SkillNode),
}

pub enum MessageView {
    Text(Seq<char>),
    ExpectedNumber(ValueView),
    Graph(SkillGraphError),
    Execution(ExecutionErrorView),
    ChildCount { node: u64, slot: Seq<char>, count: nat },
    NoComponent { node: u64 },
    PayloadNode(ValueView),
    PayloadList(Seq<ValueView>),
    UnsupportedCard(NodeView),
}

impl SkillMessage {
    pub open spec fn view(&self) -> MessageView {
        match self {
            SkillMessage::Text(t) => MessageView::Text(t@),
            SkillMessage::ExpectedNumber(v) => MessageView::ExpectedNumber(v@),
            SkillMessage::Graph(e) => MessageView::Graph(*e),
            SkillMessage::Execution(e) => MessageView::Execution(e@),
            SkillMessage::ChildCount { node, slot, count } => MessageView::ChildCount {
                node: *node,
                slot: slot@,
                count: *count as nat,
            },
            SkillMessage::NoComponent { node } => MessageView::NoComponent { node: *node },
            SkillMessage::PayloadNode(v) => MessageView::PayloadNode(v@),
            SkillMessage::PayloadList(l) => MessageView::PayloadList(list_view(l@)),
            SkillMessage::UnsupportedCard(n) => MessageView::UnsupportedCard(n@),
        }
    }
}

impl Clone for SkillMessage {
    fn clone(&self) -> (r: SkillMessage)
        ensures
            r@ == self@,
    {
        match self {
            SkillMessage::Text(t) => SkillMessage::Text(t.clone()),
            SkillMessage::ExpectedNumber(v) => SkillMessage::ExpectedNumber(copy_value(v)),
            SkillMessage::Graph(e) => SkillMessage::Graph(*e),
            SkillMessage::Execution(e) => SkillMessage::Execution(e.clone()),
            SkillMessage::ChildCount { node, slot, count } => SkillMessage::ChildCount {
                node: *node,
                slot: slot.clone(),
                count: *count,
            },
            SkillMessage::NoComponent { node } => SkillMessage::NoComponent { node: *node },
            SkillMessage::PayloadNode(v) => SkillMessage::PayloadNode(copy_value(v)),
            SkillMessage::PayloadList(l) => SkillMessage::PayloadList(copy_values(l)),
            SkillMessage::UnsupportedCard(n) => SkillMessage::UnsupportedCard(copy_node(n)),
        }
    }
}

/// An error of the skill system.
#[derive(Debug)]
pub enum SkillError {
    /// A source text could not be parsed.
    Ron(String),
    /// A skill, by its name, is invalid for the given reason.
    InvalidSkill(String, SkillMessage),
    UnknownAction(String),
    UnknownModifier(String),
    UnknownCastModel(String),
    /// An expression has no value.
    Expr { expr: String, message: ExprMessage },
    Runtime(SkillMessage),
    /// The computation needs an answer about numbers that the host has not given yet.
    Unanswered(NumberQuestion),
}

pub enum ErrorView {
    Ron(Seq<char>),
    InvalidSkill(Seq<char>, MessageView),
    UnknownAction(Seq<char>),
    UnknownModifier(Seq<char>),
    UnknownCastModel(Seq<char>),
    Expr { expr: Seq<char>, message: ExprMessageView },
    Runtime(MessageView),
    Unanswered(QuestionView),
}

impl SkillError {
    pub open spec fn view(&self) -> ErrorView {
        match self {
            SkillError::Ron(t) => ErrorView::Ron(t@),
            SkillError::InvalidSkill(a, b) => ErrorView::InvalidSkill(a@, b@),
            SkillError::UnknownAction(t) => ErrorView::UnknownAction(t@),
            SkillError::UnknownModifier(t) => ErrorView::UnknownModifier(t@),
            SkillError::UnknownCastModel(t) => ErrorView::UnknownCastModel(t@),
            SkillError::Expr { expr, message } => ErrorView::Expr {
                expr: expr@,
                message: message@,
            },
            SkillError::Runtime(m) => ErrorView::Runtime(m@),
            SkillError::Unanswered(q) => ErrorView::Unanswered(q@),
        }
    }

    /// A skill, by its name, is invalid for a reason that is a text.
    pub fn invalid_skill(name: &str, reason: &str) -> (r: SkillError)
        ensures
            r@ == invalid_text(name@, reason@),
    {
        SkillError::InvalidSkill(name.to_owned(), SkillMessage::Text(reason.to_owned()))
    }

    /// A runtime error with a fixed text.
    pub fn runtime(message: &str) -> (r: SkillError)
        ensures
            r@ == runtime_text(message@),
    {
        SkillError::Runtime(SkillMessage::Text(message.to_owned()))
    }
}

impl Clone for SkillError {
    fn clone(&self) -> (r: SkillError)
        ensures
            r@ == self@,
    {
        match self {
            SkillError::Ron(t) => SkillError::Ron(t.clone()),
            SkillError::InvalidSkill(a, b) => SkillError::InvalidSkill(a.clone(), b.clone()),
            SkillError::UnknownAction(t) => SkillError::UnknownAction(t.clone()),
            SkillError::UnknownModifier(t) => SkillError::UnknownModifier(t.clone()),
            SkillError::UnknownCastModel(t) => SkillError::UnknownCastModel(t.clone()),
            SkillError::Expr { expr, message } => SkillError::Expr {
                expr: expr.clone(),
                message: message.clone(),
            },
            SkillError::Runtime(m) => SkillError::Runtime(m.clone()),
            SkillError::Unanswered(q) => SkillError::Unanswered(q.copy()),
        }
    }
}

/// A runtime error with the given text.
pub open spec fn runtime_text(t: Seq<char>) -> ErrorView {
    ErrorView::Runtime(MessageView::Text(t))
}

/// The error of an invalid skill, by its name, with the given text.
pub open spec fn invalid_text(name: Seq<char>, t: Seq<char>) -> ErrorView {
    ErrorView::InvalidSkill(name, MessageView::Text(t))
}

/// The content of the outcome of a computation without a value.
pub open spec fn outcome(r: Result<(), SkillError>) -> Result<(), ErrorView> {
    match r {
        Ok(_) => Ok(()),
        Err(e) => Err(e@),
    }
}

/// The content of the outcome of a computation with a skill value.
pub open spec fn value_outcome(r: Result<SkillValue, SkillError>) -> Result<ValueView, ErrorView> {
    match r {
        Ok(v) => Ok(v@),
        Err(e) => Err(e@),
    }
}

} // verus!
