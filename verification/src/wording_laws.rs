//! What errors say.
use crate::cast::RejectionView;
use crate::decimal::decimal;
use crate::error::{
    ErrorView, ExecutionErrorView, ExprMessageView, MessageView, SkillGraphError, SkillNodeId,
};
use crate::message::{
    error_text, execution_text, expr_text, graph_text, message_text, rejection_text,
};
use crate::number::SkillNumber;
use crate::requirement::FailureView;
use vstd::prelude::*;

verus! {

/// The law of names in errors: what is not registered is named, and so is the skill that is
/// invalid, the expression that failed and what the parser said.
pub proof fn law_errors_name_their_subject(
    name: Seq<char>,
    m: MessageView,
    x: ExprMessageView,
    detail: Seq<char>,
)
    ensures
        error_text(ErrorView::UnknownAction(name), detail) == "action `"@ + name
            + "` is not registered"@,
        error_text(ErrorView::UnknownModifier(name), detail) == "modifier `"@ + name
            + "` is not registered"@,
        error_text(ErrorView::UnknownCastModel(name), detail) == "cast model `"@ + name
            + "` is not registered"@,
        error_text(ErrorView::Ron(name), detail) == "RON parse failed: "@ + name,
        error_text(ErrorView::InvalidSkill(name, m), detail) == "skill `"@ + name
            + "` is invalid: "@ + message_text(m, detail),
        error_text(ErrorView::Runtime(m), detail) == "runtime error: "@ + message_text(m, detail),
        error_text(ErrorView::Expr { expr: name, message: x }, detail) == "expression `"@ + name
            + "` failed: "@ + expr_text(x, detail),
{
}

/// The law of messages: a message of an error within it is that of the error, a text is itself, and
/// a number of children is told with the slot.
pub proof fn law_messages_are_passed_on(
    t: Seq<char>,
    g: SkillGraphError,
    e: ExecutionErrorView,
    node: u64,
    count: nat,
    detail: Seq<char>,
)
    ensures
        message_text(MessageView::Text(t), detail) == t,
        message_text(MessageView::Graph(g), detail) == graph_text(g),
        message_text(MessageView::Execution(e), detail) == execution_text(e),
        message_text(MessageView::ChildCount { node, slot: t, count }, detail) == "node `"@ + detail
            + "` "@ + ("expected exactly one `"@ + t + "` child, got "@) + decimal(count),
        message_text(MessageView::NoComponent { node }, detail) == "node entity `"@ + detail
            + "` has no skill node component"@,
{
}

/// The law of numbers in errors: a step count and the number of a node are shown in decimal.
pub proof fn law_counts_are_shown(steps: u32, id: SkillNodeId)
    ensures
        execution_text(ExecutionErrorView::StepBudgetExhausted { steps })
            == "step budget exhausted after "@ + decimal(steps as nat) + " steps"@,
        graph_text(SkillGraphError::MissingNode(id))
            == "skill graph references missing node `SkillNodeId("@ + decimal(id.0 as nat) + ")`"@,
        graph_text(SkillGraphError::Cycle { at: id })
            == "skill graph contains a cycle at node `SkillNodeId("@ + decimal(id.0 as nat)
            + ")`"@,
{
}

/// The law of refusals: a refusal tells how long a skill still cools down, or how much of a
/// resource is needed and how much there is, and passes a text or an error on.
pub proof fn law_refusals_tell_why(
    t: Seq<char>,
    e: ErrorView,
    a: SkillNumber,
    b: SkillNumber,
    first: Seq<char>,
    second: Seq<char>,
)
    ensures
        rejection_text(RejectionView::Text(t), first, second) == t,
        rejection_text(RejectionView::Requirement(FailureView::Invalid(e)), first, second)
            == error_text(e, first),
        rejection_text(
            RejectionView::Requirement(FailureView::OnCooldown { skill: t, remaining: a }),
            first,
            second,
        ) == "skill `"@ + t + "` is on cooldown for "@ + first + "s"@,
        rejection_text(
            RejectionView::Requirement(
                FailureView::NotEnough { resource: t, required: a, available: b },
            ),
            first,
            second,
        ) == "not enough `"@ + t + "`: required "@ + first + ", available "@ + second,
{
}

} // verus!
