//! What casts cost, and how cooldowns pass.
use crate::context::ContextView;
use crate::def::RequirementView;
use crate::error::ErrorView;
use crate::expr::expr_value;
use crate::ledger::{amount, reduced_map, LedgerMap};
use crate::meaning_laws::{answers, law_larger};
use crate::number::{num_lt, NumberOp, NumbersView, QuestionView, SkillNumber};
use crate::requirement::{
    bill, bill_paid, distinct_costs, falls_short, first_shortage, spent_all, BillView, CostView,
    FailureView, PaymentView, SpentView,
};
use crate::value::ValueView;
use vstd::prelude::*;

verus! {

/// Zero.
pub open spec fn zero() -> SkillNumber {
    SkillNumber { bits: 0 }
}

/// How much an owner has under a name: nothing where nothing is noted.
pub open spec fn holding(m: LedgerMap, owner: u64, name: Seq<char>) -> SkillNumber {
    if m.dom().contains((owner, name)) {
        m[(owner, name)]
    } else {
        zero()
    }
}

/// What requirements come to.
pub open spec fn bill_of(reqs: Seq<RequirementView>, ctx: ContextView, n: NumbersView) -> BillView {
    bill(reqs, 0, Seq::empty(), None, ctx, n)
}

/// An expression has a number as its value.
pub open spec fn is_number(e: Seq<char>, ctx: ContextView, n: NumbersView, x: SkillNumber) -> bool {
    expr_value(e, ctx, n) == Ok::<ValueView, ErrorView>(ValueView::Number(x))
}

proof fn lemma_one_more(
    reqs: Seq<RequirementView>,
    r: RequirementView,
    k: int,
    costs: Seq<CostView>,
    cooldown: Option<SkillNumber>,
    ctx: ContextView,
    n: NumbersView,
)
    requires
        0 <= k <= reqs.len(),
    ensures
        bill(reqs.push(r), k, costs, cooldown, ctx, n) == match bill(
            reqs,
            k,
            costs,
            cooldown,
            ctx,
            n,
        ) {
            BillView::Bill { costs: c, cooldown: d } => bill(seq![r], 0, c, d, ctx, n),
            other => other,
        },
    decreases reqs.len() - k,
{
    let all = reqs.push(r);
    if k < reqs.len() {
        assert(all[k] == reqs[k]);
        match reqs[k] {
            RequirementView::Cost { resource, amount } => {
                match crate::execute::expr_number(amount, ctx, n) {
                    Ok(x) => {
                        let next = if num_lt(zero(), x) {
                            costs.push((resource, x))
                        } else {
                            costs
                        };
                        lemma_one_more(reqs, r, k + 1, next, cooldown, ctx, n);
                    },
                    Err(_) => {},
                }
            },
            RequirementView::Cooldown { seconds } => {
                match crate::execute::expr_number(seconds, ctx, n) {
                    Ok(x) => {
                        let before = match cooldown {
                            Some(c) => c,
                            None => zero(),
                        };
                        lemma_one_more(
                            reqs,
                            r,
                            k + 1,
                            costs,
                            Some(crate::number::num_max(before, x)),
                            ctx,
                            n,
                        );
                    },
                    Err(_) => {},
                }
            },
        }
    } else {
        assert(all[k] == r);
        assert(seq![r][0] == r);
        match r {
            RequirementView::Cost { resource, amount } => {
                match crate::execute::expr_number(amount, ctx, n) {
                    Ok(x) => {
                        let next = if num_lt(zero(), x) {
                            costs.push((resource, x))
                        } else {
                            costs
                        };
                        assert(bill(all, k + 1, next, cooldown, ctx, n) == BillView::Bill {
                            costs: next,
                            cooldown,
                        });
                        assert(bill(seq![r], 1, next, cooldown, ctx, n) == BillView::Bill {
                            costs: next,
                            cooldown,
                        });
                    },
                    Err(_) => {},
                }
            },
            RequirementView::Cooldown { seconds } => {
                match crate::execute::expr_number(seconds, ctx, n) {
                    Ok(x) => {
                        let before = match cooldown {
                            Some(c) => c,
                            None => zero(),
                        };
                        let d = Some(crate::number::num_max(before, x));
                        assert(bill(all, k + 1, costs, d, ctx, n) == BillView::Bill {
                            costs,
                            cooldown: d,
                        });
                        assert(bill(seq![r], 1, costs, d, ctx, n) == BillView::Bill {
                            costs,
                            cooldown: d,
                        });
                    },
                    Err(_) => {},
                }
            },
        }
    }
}

/// The law of bills: no requirements cost nothing; a cost above zero is one more cost, and any other
/// cost is none; of several cooldowns the longest counts; and a requirement that is no number makes
/// the bill invalid.
pub proof fn law_bills(
    reqs: Seq<RequirementView>,
    r: RequirementView,
    x: SkillNumber,
    costs: Seq<CostView>,
    cooldown: Option<SkillNumber>,
    ctx: ContextView,
    n: NumbersView,
)
    requires
        bill_of(reqs, ctx, n) == (BillView::Bill { costs, cooldown }),
    ensures
        bill_of(Seq::empty(), ctx, n) matches BillView::Bill { costs: c, cooldown: d } && c.len() == 0
            && d is None,
        r matches RequirementView::Cost { resource, amount } ==> {
            &&& is_number(amount, ctx, n, x) && num_lt(zero(), x) ==> bill_of(reqs.push(r), ctx, n)
                == (BillView::Bill { costs: costs.push((resource, x)), cooldown })
            &&& is_number(amount, ctx, n, x) && !num_lt(zero(), x) ==> bill_of(
                reqs.push(r),
                ctx,
                n,
            ) == (BillView::Bill { costs, cooldown })
            &&& expr_value(amount, ctx, n) is Ok && !(expr_value(amount, ctx, n)->Ok_0 is Number)
                ==> bill_of(reqs.push(r), ctx, n) is Invalid
        },
        r matches RequirementView::Cooldown { seconds } ==> {
            &&& is_number(seconds, ctx, n, x) ==> (bill_of(reqs.push(r), ctx, n)
                matches BillView::Bill { costs: c, cooldown: d } && c == costs && d is Some && (
            d->0 == x || Some(d->0) == cooldown || (cooldown is None && d->0 == zero())) && !num_lt(
                d->0,
                x,
            ) && (cooldown is Some ==> !num_lt(d->0, cooldown->0)) && (cooldown is None ==> !num_lt(
                d->0,
                zero(),
            )))
            &&& expr_value(seconds, ctx, n) is Ok && !(expr_value(seconds, ctx, n)->Ok_0 is Number)
                ==> bill_of(reqs.push(r), ctx, n) is Invalid
        },
{
    lemma_one_more(reqs, r, 0, Seq::empty(), None, ctx, n);
    let one = seq![r];
    assert(one[0] == r);
    match r {
        RequirementView::Cost { resource, amount } => {
            if is_number(amount, ctx, n, x) {
                let next = if num_lt(zero(), x) {
                    costs.push((resource, x))
                } else {
                    costs
                };
                assert(bill(one, 1, next, cooldown, ctx, n) == BillView::Bill {
                    costs: next,
                    cooldown,
                });
            }
        },
        RequirementView::Cooldown { seconds } => {
            if is_number(seconds, ctx, n, x) {
                let before = match cooldown {
                    Some(c) => c,
                    None => zero(),
                };
                law_larger(before, x);
                let d = Some(crate::number::num_max(before, x));
                assert(bill(one, 1, costs, d, ctx, n) == BillView::Bill { costs, cooldown: d });
            }
        },
    }
}

/// The owner has enough for a cost: what there is, with the smallest step that a number above one can
/// make on top, is not below it.
pub open spec fn has_enough(m: LedgerMap, caster: u64, cost: CostView, n: NumbersView) -> bool {
    exists|sum: SkillNumber|
        answers(
            n,
            NumberOp::Add,
            holding(m, caster, cost.0),
            SkillNumber { bits: 0x3cb0_0000_0000_0000 },
            sum,
        ) && !(#[trigger] num_lt(sum, cost.1))
}

/// The owner has not enough for a cost.
pub open spec fn lacks(m: LedgerMap, caster: u64, cost: CostView, n: NumbersView) -> bool {
    exists|sum: SkillNumber|
        answers(
            n,
            NumberOp::Add,
            holding(m, caster, cost.0),
            SkillNumber { bits: 0x3cb0_0000_0000_0000 },
            sum,
        ) && #[trigger] num_lt(sum, cost.1)
}

proof fn lemma_enough(m: LedgerMap, caster: u64, cost: CostView, n: NumbersView)
    ensures
        falls_short(amount(m, caster, cost.0), cost.1, n) == Ok::<bool, QuestionView>(false)
            ==> has_enough(m, caster, cost, n),
        falls_short(amount(m, caster, cost.0), cost.1, n) == Ok::<bool, QuestionView>(true)
            ==> lacks(m, caster, cost, n),
{
    let key = (
        NumberOp::Add,
        holding(m, caster, cost.0),
        SkillNumber { bits: 0x3cb0_0000_0000_0000 },
    );
    if n.results.contains_key(key) {
        let sum = n.results[key];
        assert(answers(n, NumberOp::Add, key.1, key.2, sum));
        assert(num_lt(sum, cost.1) || !num_lt(sum, cost.1));
    }
}

proof fn lemma_shortage(
    costs: Seq<CostView>,
    k: int,
    caster: u64,
    m: LedgerMap,
    n: NumbersView,
)
    requires
        0 <= k <= costs.len(),
        forall|j: int| 0 <= j < k ==> has_enough(m, caster, #[trigger] costs[j], n),
    ensures
        match first_shortage(costs, k, caster, m, n) {
            Ok(None) => forall|j: int|
                0 <= j < costs.len() ==> has_enough(m, caster, #[trigger] costs[j], n),
            Ok(Some(f)) => exists|i: int|
                0 <= i < costs.len() && lacks(m, caster, #[trigger] costs[i], n) && f
                    == (FailureView::NotEnough {
                    resource: costs[i].0,
                    required: costs[i].1,
                    available: holding(m, caster, costs[i].0),
                }) && forall|j: int| 0 <= j < i ==> has_enough(m, caster, #[trigger] costs[j], n),
            Err(_) => true,
        },
    decreases costs.len() - k,
{
    if k < costs.len() {
        lemma_enough(m, caster, costs[k], n);
        match falls_short(amount(m, caster, costs[k].0), costs[k].1, n) {
            Ok(true) => {
                assert(lacks(m, caster, costs[k], n));
            },
            Ok(false) => lemma_shortage(costs, k + 1, caster, m, n),
            Err(_) => {},
        }
    }
}

proof fn lemma_spent(
    costs: Seq<CostView>,
    k: int,
    caster: u64,
    start: LedgerMap,
    m: LedgerMap,
    n: NumbersView,
)
    requires
        0 <= k <= costs.len(),
        distinct_costs(costs),
        forall|j: int|
            k <= j < costs.len() ==> holding(m, caster, (#[trigger] costs[j]).0) == holding(
                start,
                caster,
                costs[j].0,
            ),
        forall|j: int|
            0 <= j < k ==> answers(
                n,
                NumberOp::Sub,
                holding(start, caster, (#[trigger] costs[j]).0),
                costs[j].1,
                holding(m, caster, costs[j].0),
            ),
        forall|owner: u64, name: Seq<char>|
            (owner != caster || forall|j: int|
                0 <= j < costs.len() ==> (#[trigger] costs[j]).0 != name) ==> #[trigger] holding(
                m,
                owner,
                name,
            ) == holding(start, owner, name),
    ensures
        spent_all(costs, k, caster, m, n) matches SpentView::Spent(left) ==> {
            &&& forall|j: int|
                0 <= j < costs.len() ==> answers(
                    n,
                    NumberOp::Sub,
                    holding(start, caster, (#[trigger] costs[j]).0),
                    costs[j].1,
                    holding(left, caster, costs[j].0),
                )
            &&& forall|owner: u64, name: Seq<char>|
                (owner != caster || forall|j: int|
                    0 <= j < costs.len() ==> (#[trigger] costs[j]).0 != name)
                    ==> #[trigger] holding(left, owner, name) == holding(start, owner, name)
        },
    decreases costs.len() - k,
{
    if k < costs.len() {
        let current = amount(m, caster, costs[k].0);
        match falls_short(current, costs[k].1, n) {
            Ok(false) => {
                let key = (NumberOp::Sub, current, costs[k].1);
                if n.results.contains_key(key) {
                    let next = m.insert((caster, costs[k].0), n.results[key]);
                    assert forall|j: int| k + 1 <= j < costs.len() implies holding(
                        next,
                        caster,
                        (#[trigger] costs[j]).0,
                    ) == holding(start, caster, costs[j].0) by {
                        assert(costs[j].0 != costs[k].0);
                    }
                    assert forall|j: int| 0 <= j < k + 1 implies answers(
                        n,
                        NumberOp::Sub,
                        holding(start, caster, (#[trigger] costs[j]).0),
                        costs[j].1,
                        holding(next, caster, costs[j].0),
                    ) by {
                        if j < k {
                            assert(costs[j].0 != costs[k].0);
                        }
                    }
                    assert forall|owner: u64, name: Seq<char>|
                        (owner != caster || forall|j: int|
                            0 <= j < costs.len() ==> (#[trigger] costs[j]).0 != name) implies
                        #[trigger] holding(next, owner, name) == holding(start, owner, name) by {
                        assert(owner != caster || costs[k].0 != name);
                        assert(holding(m, owner, name) == holding(start, owner, name));
                    }
                    lemma_spent(costs, k + 1, caster, start, next, n);
                }
            },
            _ => {},
        }
    }
}

/// The law of payment: a bill is paid only if the skill is not cooling down and the caster has enough
/// for every cost; then the caster has, of every resource that is paid with, what the host says is
/// left, and nobody has more or less of anything else; a cooldown above zero begins, and no other
/// changes.
pub proof fn law_payment(
    id: Seq<char>,
    costs: Seq<CostView>,
    cooldown: Option<SkillNumber>,
    caster: u64,
    pools: LedgerMap,
    cooldowns: LedgerMap,
    n: NumbersView,
)
    requires
        distinct_costs(costs),
        bill_paid(id, costs, cooldown, caster, pools, cooldowns, n) is Paid,
    ensures
        ({
            let left = bill_paid(id, costs, cooldown, caster, pools, cooldowns, n)->Paid_pools;
            let cold = bill_paid(id, costs, cooldown, caster, pools, cooldowns, n)->Paid_cooldowns;
            &&& !num_lt(zero(), holding(cooldowns, caster, id))
            &&& forall|j: int|
                0 <= j < costs.len() ==> has_enough(pools, caster, #[trigger] costs[j], n)
            &&& forall|j: int|
                0 <= j < costs.len() ==> answers(
                    n,
                    NumberOp::Sub,
                    holding(pools, caster, (#[trigger] costs[j]).0),
                    costs[j].1,
                    holding(left, caster, costs[j].0),
                )
            &&& forall|owner: u64, name: Seq<char>|
                (owner != caster || forall|j: int|
                    0 <= j < costs.len() ==> (#[trigger] costs[j]).0 != name)
                    ==> #[trigger] holding(left, owner, name) == holding(pools, owner, name)
            &&& forall|owner: u64, name: Seq<char>|
                (owner, name) != (caster, id) ==> #[trigger] holding(cold, owner, name) == holding(
                    cooldowns,
                    owner,
                    name,
                )
            &&& cooldown is None ==> cold == cooldowns
            &&& cooldown is Some ==> exists|x: SkillNumber|
                answers(n, NumberOp::Single, cooldown->0, zero(), x) && (#[trigger] num_lt(
                    zero(),
                    x,
                ) ==> holding(cold, caster, id) == x) && (!num_lt(zero(), x) ==> cold == cooldowns)
        }),
{
    lemma_shortage(costs, 0, caster, pools, n);
    lemma_spent(costs, 0, caster, pools, pools, n);
    if cooldown is Some {
        let x = n.results[(NumberOp::Single, cooldown->0, zero())];
        assert(answers(n, NumberOp::Single, cooldown->0, zero(), x));
        assert(num_lt(zero(), x) || !num_lt(zero(), x));
    }
}

/// The law of refusal: a skill that is cooling down is refused with what is left of its cooldown; if
/// not, the first cost that the caster has not enough for is the reason, with what is required and
/// what there is; and either way nothing is spent.
pub proof fn law_refusal(
    id: Seq<char>,
    costs: Seq<CostView>,
    cooldown: Option<SkillNumber>,
    caster: u64,
    pools: LedgerMap,
    cooldowns: LedgerMap,
    n: NumbersView,
)
    ensures
        num_lt(zero(), holding(cooldowns, caster, id)) ==> bill_paid(
            id,
            costs,
            cooldown,
            caster,
            pools,
            cooldowns,
            n,
        ) == (PaymentView::Refused {
            failure: FailureView::OnCooldown {
                skill: id,
                remaining: holding(cooldowns, caster, id),
            },
            pools,
        }),
        !num_lt(zero(), holding(cooldowns, caster, id)) && distinct_costs(costs) ==> (bill_paid(
            id,
            costs,
            cooldown,
            caster,
            pools,
            cooldowns,
            n,
        ) matches PaymentView::Refused { failure, pools: left } ==> left == pools && exists|i: int|
            0 <= i < costs.len() && lacks(pools, caster, #[trigger] costs[i], n) && failure
                == (FailureView::NotEnough {
                resource: costs[i].0,
                required: costs[i].1,
                available: holding(pools, caster, costs[i].0),
            }) && forall|j: int| 0 <= j < i ==> has_enough(pools, caster, #[trigger] costs[j], n)),
{
    lemma_shortage(costs, 0, caster, pools, n);
    if first_shortage(costs, 0, caster, pools, n) == Ok::<Option<FailureView>, QuestionView>(None)
        && distinct_costs(costs) {
        crate::requirement::lemma_spending_succeeds(costs, 0, caster, pools, pools, n);
    }
}

/// The law of cooldowns: as time passes, what is left of a cooldown is what the host says; one of
/// which nothing is left is over, and none begins.
pub proof fn law_cooldowns_pass(m: LedgerMap, by: SkillNumber, n: NumbersView, owner: u64, id: Seq<char>, x: SkillNumber)
    ensures
        m.contains_key((owner, id)) && answers(n, NumberOp::SubSingle, m[(owner, id)], by, x)
            && num_lt(zero(), x) ==> reduced_map(m, by, n).contains_pair((owner, id), x),
        m.contains_key((owner, id)) && answers(n, NumberOp::SubSingle, m[(owner, id)], by, x)
            && !num_lt(zero(), x) ==> !reduced_map(m, by, n).contains_key((owner, id)),
        !m.contains_key((owner, id)) ==> !reduced_map(m, by, n).contains_key((owner, id)),
{
}

} // verus!
