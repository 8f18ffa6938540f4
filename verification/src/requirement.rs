//! What a cast costs.
use crate::context::{ContextView, SkillContext};
use crate::def::{requirements_view, RequirementView, SkillRequirement};
use crate::error::{ErrorView, SkillError};
use crate::execute::{eval_number, expr_number};
use crate::ledger::{amount, started, LedgerMap, SkillCooldowns, SkillResourcePools};
use crate::number::{
    ask_result, num_epsilon, num_lt, num_max, num_zero, NumberOp, NumberQuestion, NumberTable,
    NumbersView, QuestionView, SkillNumber,
};
use crate::value::SkillId;
use vstd::prelude::*;

verus! {

/// Why a cast is refused.
#[derive(Debug)]
pub enum RequirementFailure {
    /// A requirement could not be worked out.
    Invalid(SkillError),
    /// The skill is cooling down.
    OnCooldown { skill: SkillId, remaining: SkillNumber },
    /// The caster does not have enough of a resource.
    NotEnough { resource: String, required: SkillNumber, available: SkillNumber },
}

pub enum FailureView {
    Invalid(ErrorView),
    OnCooldown { skill: Seq<char>, remaining: SkillNumber },
    NotEnough { resource: Seq<char>, required: SkillNumber, available: SkillNumber },
}

impl RequirementFailure {
    pub open spec fn view(&self) -> FailureView {
        match self {
            RequirementFailure::Invalid(e) => FailureView::Invalid(e@),
            RequirementFailure::OnCooldown { skill, remaining } => FailureView::OnCooldown {
                skill: skill@,
                remaining: *remaining,
            },
            RequirementFailure::NotEnough { resource, required, available } => {
                FailureView::NotEnough {
                    resource: resource@,
                    required: *required,
                    available: *available,
                }
            },
        }
    }
}

/// Why a cast is not paid for.
#[derive(Debug)]
pub enum PayError {
    Refused(RequirementFailure),
    Ask(NumberQuestion),
}

/// A resource and how much of it is needed.
pub type CostView = (Seq<char>, SkillNumber);

/// What requirements come to.
pub enum BillView {
    Ask(QuestionView),
    Invalid(ErrorView),
    Bill { costs: Seq<CostView>, cooldown: Option<SkillNumber> },
}

/// The bill of an error.
pub open spec fn no_bill(e: ErrorView) -> BillView {
    match e {
        ErrorView::Unanswered(q) => BillView::Ask(q),
        _ => BillView::Invalid(e),
    }
}

/// What the requirements from the `k`-th on come to, on top of what has been gathered. Costs that
/// are not above zero do not count; of several cooldowns the longest counts.
pub open spec fn bill(
    reqs: Seq<RequirementView>,
    k: int,
    costs: Seq<CostView>,
    cooldown: Option<SkillNumber>,
    ctx: ContextView,
    n: NumbersView,
) -> BillView
    decreases reqs.len() - k,
{
    if 0 <= k < reqs.len() {
        match reqs[k] {
            RequirementView::Cost { resource, amount } => match expr_number(amount, ctx, n) {
                Ok(x) => bill(
                    reqs,
                    k + 1,
                    if num_lt(num_zero(), x) {
                        costs.push((resource, x))
                    } else {
                        costs
                    },
                    cooldown,
                    ctx,
                    n,
                ),
                Err(e) => no_bill(e),
            },
            RequirementView::Cooldown { seconds } => match expr_number(seconds, ctx, n) {
                Ok(x) => bill(
                    reqs,
                    k + 1,
                    costs,
                    Some(
                        num_max(
                            match cooldown {
                                Some(c) => c,
                                None => num_zero(),
                            },
                            x,
                        ),
                    ),
                    ctx,
                    n,
                ),
                Err(e) => no_bill(e),
            },
        }
    } else {
        BillView::Bill { costs, cooldown }
    }
}

/// Whether an available amount falls short of a required one by more than a rounding error.
pub open spec fn falls_short(available: SkillNumber, required: SkillNumber, n: NumbersView) -> Result<
    bool,
    QuestionView,
> {
    match ask_result(n, NumberOp::Add, available, num_epsilon()) {
        Ok(sum) => Ok(num_lt(sum, required)),
        Err(q) => Err(q),
    }
}

/// The failure of a caster who does not have enough of a resource.
pub open spec fn shortage(m: LedgerMap, caster: u64, cost: CostView) -> FailureView {
    FailureView::NotEnough {
        resource: cost.0,
        required: cost.1,
        available: amount(m, caster, cost.0),
    }
}

/// The first of the costs from the `k`-th on that the caster cannot meet.
pub open spec fn first_shortage(
    costs: Seq<CostView>,
    k: int,
    caster: u64,
    m: LedgerMap,
    n: NumbersView,
) -> Result<Option<FailureView>, QuestionView>
    decreases costs.len() - k,
{
    if 0 <= k < costs.len() {
        match falls_short(amount(m, caster, costs[k].0), costs[k].1, n) {
            Ok(true) => Ok(Some(shortage(m, caster, costs[k]))),
            Ok(false) => first_shortage(costs, k + 1, caster, m, n),
            Err(q) => Err(q),
        }
    } else {
        Ok(None)
    }
}

/// What comes of a payment.
pub enum PaymentView {
    Ask(QuestionView),
    Refused { failure: FailureView, pools: LedgerMap },
    Paid { pools: LedgerMap, cooldowns: LedgerMap },
}

/// The outcome of spending: a question, a shortage with what was spent before it, or the pools
/// afterwards.
pub enum SpentView {
    Ask(QuestionView),
    Short { failure: FailureView, pools: LedgerMap },
    Spent(LedgerMap),
}

/// The pools after spending the costs from the `k`-th on, one after another.
pub open spec fn spent_all(
    costs: Seq<CostView>,
    k: int,
    caster: u64,
    m: LedgerMap,
    n: NumbersView,
) -> SpentView
    decreases costs.len() - k,
{
    if 0 <= k < costs.len() {
        let current = amount(m, caster, costs[k].0);
        match falls_short(current, costs[k].1, n) {
            Ok(true) => SpentView::Short { failure: shortage(m, caster, costs[k]), pools: m },
            Ok(false) => match ask_result(n, NumberOp::Sub, current, costs[k].1) {
                Ok(left) => spent_all(
                    costs,
                    k + 1,
                    caster,
                    m.insert((caster, costs[k].0), left),
                    n,
                ),
                Err(q) => SpentView::Ask(q),
            },
            Err(q) => SpentView::Ask(q),
        }
    } else {
        SpentView::Spent(m)
    }
}

/// The outcome of paying a bill: nothing is spent while the skill cools down or if one of the
/// costs exceeds what there was at the start.
pub open spec fn bill_paid(
    id: Seq<char>,
    costs: Seq<CostView>,
    cooldown: Option<SkillNumber>,
    caster: u64,
    pools: LedgerMap,
    cooldowns: LedgerMap,
    n: NumbersView,
) -> PaymentView {
    let remaining = amount(cooldowns, caster, id);
    if num_lt(num_zero(), remaining) {
        PaymentView::Refused {
            failure: FailureView::OnCooldown { skill: id, remaining },
            pools,
        }
    } else {
        match first_shortage(costs, 0, caster, pools, n) {
            Err(q) => PaymentView::Ask(q),
            Ok(Some(failure)) => PaymentView::Refused { failure, pools },
            Ok(None) => match spent_all(costs, 0, caster, pools, n) {
                SpentView::Ask(q) => PaymentView::Ask(q),
                SpentView::Short { failure, pools: left } => PaymentView::Refused {
                    failure,
                    pools: left,
                },
                SpentView::Spent(left) => match cooldown {
                    None => PaymentView::Paid { pools: left, cooldowns },
                    Some(seconds) => match ask_result(n, NumberOp::Single, seconds, num_zero()) {
                        Ok(x) => PaymentView::Paid {
                            pools: left,
                            cooldowns: started(cooldowns, caster, id, x),
                        },
                        Err(q) => PaymentView::Ask(q),
                    },
                },
            },
        }
    }
}

/// The outcome of checking and paying the requirements of a skill.
pub open spec fn payment(
    id: Seq<char>,
    reqs: Seq<RequirementView>,
    caster: u64,
    ctx: ContextView,
    pools: LedgerMap,
    cooldowns: LedgerMap,
    n: NumbersView,
) -> PaymentView {
    match bill(reqs, 0, Seq::empty(), None, ctx, n) {
        BillView::Ask(q) => PaymentView::Ask(q),
        BillView::Invalid(e) => PaymentView::Refused { failure: FailureView::Invalid(e), pools },
        BillView::Bill { costs, cooldown } => bill_paid(
            id,
            costs,
            cooldown,
            caster,
            pools,
            cooldowns,
            n,
        ),
    }
}

spec fn costs_view(s: Seq<(String, SkillNumber)>) -> Seq<CostView> {
    Seq::new(s.len(), |i: int| (s[i].0@, s[i].1))
}

fn unbilled(e: SkillError) -> (r: PayError)
    ensures
        match no_bill(e@) {
            BillView::Ask(q) => r matches PayError::Ask(x) && x@ == q,
            _ => r matches PayError::Refused(RequirementFailure::Invalid(x)) && x@ == e@,
        },
{
    match e {
        SkillError::Unanswered(q) => PayError::Ask(q),
        other => PayError::Refused(RequirementFailure::Invalid(other)),
    }
}

fn make_bill(requirements: &Vec<SkillRequirement>, ctx: &SkillContext, numbers: &NumberTable) -> (r:
    Result<(Vec<(String, SkillNumber)>, Option<SkillNumber>), PayError>)
    ensures
        match bill(requirements_view(requirements@), 0, Seq::empty(), None, ctx@, numbers@) {
            BillView::Ask(q) => r matches Err(PayError::Ask(x)) && x@ == q,
            BillView::Invalid(e) => r matches Err(
                PayError::Refused(RequirementFailure::Invalid(x)),
            ) && x@ == e,
            BillView::Bill { costs, cooldown } => r matches Ok((c, d)) && costs_view(c@) == costs
                && d == cooldown,
        },
{
    let mut costs: Vec<(String, SkillNumber)> = Vec::new();
    let mut cooldown: Option<SkillNumber> = None;
    let ghost reqs = requirements_view(requirements@);
    let n: usize = requirements.len();
    let mut i: usize = 0;
    assert(costs_view(costs@) =~= Seq::empty());
    while i < n
        invariant
            i <= n,
            n == requirements@.len(),
            reqs == requirements_view(requirements@),
            bill(reqs, 0, Seq::empty(), None, ctx@, numbers@) == bill(
                reqs,
                i as int,
                costs_view(costs@),
                cooldown,
                ctx@,
                numbers@,
            ),
        decreases n - i,
    {
        assert(reqs[i as int] == requirements@[i as int]@);
        match &requirements[i] {
            SkillRequirement::Cost { resource, amount } => match eval_number(
                amount,
                ctx,
                numbers,
            ) {
                Ok(x) => {
                    if SkillNumber::zero().less(x) {
                        let ghost before = costs@;
                        costs.push((resource.clone(), x));
                        assert(costs_view(costs@) =~= costs_view(before).push((resource@, x)));
                    }
                },
                Err(e) => return Err(unbilled(e)),
            },
            SkillRequirement::Cooldown { seconds } => match eval_number(seconds, ctx, numbers) {
                Ok(x) => {
                    let so_far = match cooldown {
                        Some(c) => c,
                        None => SkillNumber::zero(),
                    };
                    cooldown = Some(so_far.larger(x));
                },
                Err(e) => return Err(unbilled(e)),
            },
        }
        i = i + 1;
    }
    Ok((costs, cooldown))
}

fn short_of(available: SkillNumber, required: SkillNumber, numbers: &NumberTable) -> (r: Result<
    bool,
    NumberQuestion,
>)
    ensures
        crate::number::asked(r) == falls_short(available, required, numbers@),
{
    match numbers.result(NumberOp::Add, available, SkillNumber::epsilon()) {
        Ok(sum) => Ok(sum.less(required)),
        Err(q) => Err(q),
    }
}

/// Spends an amount of a resource.
fn spend(
    pools: &mut SkillResourcePools,
    owner: u64,
    resource: &String,
    required: SkillNumber,
    numbers: &NumberTable,
) -> (r: Result<(), PayError>)
    ensures
        ({
            let current = amount(old(pools)@, owner, resource@);
            match falls_short(current, required, numbers@) {
                Ok(true) => r matches Err(PayError::Refused(f)) && f@ == shortage(
                    old(pools)@,
                    owner,
                    (resource@, required),
                ) && *final(pools) == *old(pools),
                Ok(false) => match ask_result(numbers@, NumberOp::Sub, current, required) {
                    Ok(left) => r is Ok && final(pools)@ == old(pools)@.insert(
                        (owner, resource@),
                        left,
                    ),
                    Err(q) => r matches Err(PayError::Ask(x)) && x@ == q && *final(pools) == *old(
                        pools,
                    ),
                },
                Err(q) => r matches Err(PayError::Ask(x)) && x@ == q && *final(pools) == *old(
                    pools,
                ),
            }
        }),
{
    let current = pools.get(owner, resource.as_str());
    match short_of(current, required, numbers) {
        Ok(true) => Err(
            PayError::Refused(
                RequirementFailure::NotEnough {
                    resource: resource.clone(),
                    required,
                    available: current,
                },
            ),
        ),
        Ok(false) => match numbers.result(NumberOp::Sub, current, required) {
            Ok(left) => {
                pools.set(owner, resource.clone(), left);
                Ok(())
            },
            Err(q) => Err(PayError::Ask(q)),
        },
        Err(q) => Err(PayError::Ask(q)),
    }
}

fn check_costs(
    costs: &Vec<(String, SkillNumber)>,
    caster: u64,
    pools: &SkillResourcePools,
    numbers: &NumberTable,
) -> (r: Result<(), PayError>)
    ensures
        match first_shortage(costs_view(costs@), 0, caster, pools@, numbers@) {
            Err(q) => r matches Err(PayError::Ask(x)) && x@ == q,
            Ok(Some(failure)) => r matches Err(PayError::Refused(f)) && f@ == failure,
            Ok(None) => r is Ok,
        },
{
    let ghost s = costs_view(costs@);
    let n: usize = costs.len();
    let mut i: usize = 0;
    while i < n
        invariant
            i <= n,
            n == costs@.len(),
            s == costs_view(costs@),
            first_shortage(s, 0, caster, pools@, numbers@) == first_shortage(
                s,
                i as int,
                caster,
                pools@,
                numbers@,
            ),
        decreases n - i,
    {
        let available = pools.get(caster, costs[i].0.as_str());
        match short_of(available, costs[i].1, numbers) {
            Ok(true) => return Err(
                PayError::Refused(
                    RequirementFailure::NotEnough {
                        resource: costs[i].0.clone(),
                        required: costs[i].1,
                        available,
                    },
                ),
            ),
            Ok(false) => {},
            Err(q) => return Err(PayError::Ask(q)),
        }
        i = i + 1;
    }
    Ok(())
}

fn spend_costs(
    costs: &Vec<(String, SkillNumber)>,
    caster: u64,
    pools: &mut SkillResourcePools,
    numbers: &NumberTable,
) -> (r: Result<(), PayError>)
    ensures
        match spent_all(costs_view(costs@), 0, caster, old(pools)@, numbers@) {
            SpentView::Ask(q) => r matches Err(PayError::Ask(x)) && x@ == q,
            SpentView::Short { failure, pools: left } => r matches Err(PayError::Refused(f))
                && f@ == failure && final(pools)@ == left,
            SpentView::Spent(left) => r is Ok && final(pools)@ == left,
        },
{
    let ghost s = costs_view(costs@);
    let n: usize = costs.len();
    let mut i: usize = 0;
    while i < n
        invariant
            i <= n,
            n == costs@.len(),
            s == costs_view(costs@),
            spent_all(s, 0, caster, old(pools)@, numbers@) == spent_all(
                s,
                i as int,
                caster,
                pools@,
                numbers@,
            ),
        decreases n - i,
    {
        assert(s[i as int] == (costs@[i as int].0@, costs@[i as int].1));
        match spend(pools, caster, &costs[i].0, costs[i].1, numbers) {
            Ok(_) => {},
            Err(e) => return Err(e),
        }
        i = i + 1;
    }
    Ok(())
}

/// Checks the requirements of a skill and pays for it.
pub fn validate_and_pay_requirements(
    id: &SkillId,
    requirements: &Vec<SkillRequirement>,
    caster: u64,
    ctx: &SkillContext,
    resources: &mut SkillResourcePools,
    cooldowns: &mut SkillCooldowns,
    numbers: &NumberTable,
) -> (r: Result<(), PayError>)
    ensures
        match payment(
            id@,
            requirements_view(requirements@),
            caster,
            ctx@,
            old(resources)@,
            old(cooldowns)@,
            numbers@,
        ) {
            PaymentView::Ask(q) => r matches Err(PayError::Ask(x)) && x@ == q && *final(resources)
                == *old(resources) && *final(cooldowns) == *old(cooldowns),
            PaymentView::Refused { failure, pools } => r matches Err(PayError::Refused(f)) && f@
                == failure && final(resources)@ == pools && *final(cooldowns) == *old(cooldowns),
            PaymentView::Paid { pools, cooldowns: cd } => r is Ok && final(resources)@ == pools
                && final(cooldowns)@ == cd,
        },
{
    let (costs, cooldown): (Vec<(String, SkillNumber)>, Option<SkillNumber>) = match make_bill(
        requirements,
        ctx,
        numbers,
    ) {
        Ok(b) => b,
        Err(e) => return Err(e),
    };
    let remaining = cooldowns.remaining(caster, id);
    if SkillNumber::zero().less(remaining) {
        return Err(
            PayError::Refused(
                RequirementFailure::OnCooldown { skill: id.clone(), remaining },
            ),
        );
    }
    match check_costs(&costs, caster, resources, numbers) {
        Ok(_) => {},
        Err(e) => return Err(e),
    }
    let mut left = resources.copy();
    match spend_costs(&costs, caster, &mut left, numbers) {
        Ok(_) => {},
        Err(PayError::Ask(q)) => return Err(PayError::Ask(q)),
        Err(PayError::Refused(f)) => {
            *resources = left;
            return Err(PayError::Refused(f));
        },
    }
    if let Some(seconds) = cooldown {
        match numbers.result(NumberOp::Single, seconds, SkillNumber::zero()) {
            Ok(x) => cooldowns.start(caster, id.clone(), x),
            Err(q) => return Err(PayError::Ask(q)),
        }
    }
    *resources = left;
    Ok(())
}

/// No resource is asked for twice.
pub open spec fn distinct_costs(costs: Seq<CostView>) -> bool {
    forall|i: int, j: int|
        0 <= i < costs.len() && 0 <= j < costs.len() && (#[trigger] costs[i]).0 == (
        #[trigger] costs[j]).0 ==> i == j
}

proof fn lemma_no_shortage(
    costs: Seq<CostView>,
    k: int,
    caster: u64,
    m: LedgerMap,
    n: NumbersView,
    j: int,
)
    requires
        0 <= k <= j < costs.len(),
        first_shortage(costs, k, caster, m, n) == Ok::<Option<FailureView>, QuestionView>(None),
    ensures
        falls_short(amount(m, caster, costs[j].0), costs[j].1, n) == Ok::<bool, QuestionView>(
            false,
        ),
    decreases j - k,
{
    if k < j {
        lemma_no_shortage(costs, k + 1, caster, m, n, j);
    }
}

/// Where every cost can be met at the start and no resource is asked for twice, spending goes well.
pub proof fn lemma_spending_succeeds(
    costs: Seq<CostView>,
    k: int,
    caster: u64,
    start: LedgerMap,
    m: LedgerMap,
    n: NumbersView,
)
    requires
        0 <= k,
        distinct_costs(costs),
        forall|j: int|
            k <= j < costs.len() ==> amount(m, caster, (#[trigger] costs[j]).0) == amount(
                start,
                caster,
                costs[j].0,
            ),
        first_shortage(costs, 0, caster, start, n) == Ok::<Option<FailureView>, QuestionView>(
            None,
        ),
    ensures
        !(spent_all(costs, k, caster, m, n) is Short),
    decreases costs.len() - k,
{
    if k < costs.len() {
        lemma_no_shortage(costs, 0, caster, start, n, k);
        let current = amount(m, caster, costs[k].0);
        match ask_result(n, NumberOp::Sub, current, costs[k].1) {
            Ok(left) => {
                let next = m.insert((caster, costs[k].0), left);
                assert forall|j: int| k + 1 <= j < costs.len() implies amount(
                    next,
                    caster,
                    (#[trigger] costs[j]).0,
                ) == amount(start, caster, costs[j].0) by {
                    assert(costs[j].0 != costs[k].0);
                    assert(amount(m, caster, costs[j].0) == amount(start, caster, costs[j].0));
                }
                lemma_spending_succeeds(costs, k + 1, caster, start, next, n);
            },
            Err(_) => {},
        }
    }
}

/// The law of refusal: a cast that is refused costs nothing, as long as no resource is asked for
/// twice.
pub proof fn law_refusal_costs_nothing(
    id: Seq<char>,
    reqs: Seq<RequirementView>,
    caster: u64,
    ctx: ContextView,
    pools: LedgerMap,
    cooldowns: LedgerMap,
    n: NumbersView,
)
    requires
        bill(reqs, 0, Seq::empty(), None, ctx, n) matches BillView::Bill { costs, cooldown }
            ==> distinct_costs(costs),
    ensures
        payment(id, reqs, caster, ctx, pools, cooldowns, n) matches PaymentView::Refused {
            failure,
            pools: left,
        } ==> left == pools,
{
    match bill(reqs, 0, Seq::empty(), None, ctx, n) {
        BillView::Bill { costs, cooldown } => {
            if first_shortage(costs, 0, caster, pools, n) == Ok::<
                Option<FailureView>,
                QuestionView,
            >(None) {
                lemma_spending_succeeds(costs, 0, caster, pools, pools, n);
            }
        },
        _ => {},
    }
}

/// A law of cooldowns: a skill that is cooling down cannot be cast, and trying changes nothing.
pub proof fn law_cooldown_refuses(
    id: Seq<char>,
    costs: Seq<CostView>,
    cooldown: Option<SkillNumber>,
    caster: u64,
    pools: LedgerMap,
    cooldowns: LedgerMap,
    n: NumbersView,
)
    requires
        num_lt(num_zero(), amount(cooldowns, caster, id)),
    ensures
        bill_paid(id, costs, cooldown, caster, pools, cooldowns, n) == (PaymentView::Refused {
            failure: FailureView::OnCooldown {
                skill: id,
                remaining: amount(cooldowns, caster, id),
            },
            pools,
        }),
{
}

/// A law of payment: a payment for a skill with a cooldown above zero starts the cooldown, so that
/// the same skill is refused until time passes.
pub proof fn law_payment_starts_cooldown(
    id: Seq<char>,
    costs: Seq<CostView>,
    seconds: SkillNumber,
    caster: u64,
    pools: LedgerMap,
    cooldowns: LedgerMap,
    n: NumbersView,
)
    requires
        bill_paid(id, costs, Some(seconds), caster, pools, cooldowns, n) is Paid,
        ask_result(n, NumberOp::Single, seconds, num_zero()) matches Ok(x) ==> num_lt(
            num_zero(),
            x,
        ),
    ensures
        num_lt(
            num_zero(),
            amount(
                bill_paid(
                    id,
                    costs,
                    Some(seconds),
                    caster,
                    pools,
                    cooldowns,
                    n,
                )->Paid_cooldowns,
                caster,
                id,
            ),
        ),
{
}

} // verus!
