//! How casts begin, and how effects come and go.
use crate::action::SpawnView;
use crate::branch::{OutputView, SkillTimer};
use crate::cast::{
    cast, casts, compiled_record, CastOutcomeView, CastRequestView, CompiledRecordView,
    RejectionView, StakesView,
};
use crate::context::ContextView;
use crate::effect::{
    effect_ticked, work_of, work_step, work_steps, EffectTickView, EffectView, WorkView,
};
use crate::error::ErrorView;
use crate::execute::{node_run, EnvView};
use crate::library::LibraryView;
use crate::meaning_laws::law_larger;
use crate::number::{num_lt, QuestionView, SkillNumber};
use crate::payment_laws::{bill_of, zero};
use crate::requirement::{bill_paid, payment, BillView, FailureView, PaymentView};
use crate::resume::ActiveView;
use vstd::prelude::*;

verus! {

/// The `i`-th record is the first of an entity.
pub open spec fn first_record(l: Seq<CompiledRecordView>, i: int, entity: u64) -> bool {
    &&& 0 <= i < l.len()
    &&& l[i].entity == entity
    &&& forall|j: int| 0 <= j < i ==> (#[trigger] l[j]).entity != entity
}

proof fn lemma_first_record(l: Seq<CompiledRecordView>, i: int, k: int, entity: u64)
    requires
        first_record(l, i, entity),
        0 <= k <= i,
    ensures
        compiled_record(l, entity, k) == Some(l[i]),
    decreases i - k,
{
    if k < i {
        assert(l[k].entity != entity);
        lemma_first_record(l, i, k + 1, entity);
    }
}

/// A context in which nothing has happened yet: the parameters of the skill are its stats, it has no
/// variables and no event, and it is cast by the caster at the target.
pub open spec fn begins(ctx: ContextView, c: CompiledRecordView, q: CastRequestView) -> bool {
    &&& ctx.skill_id == c.id
    &&& ctx.stats == c.params
    &&& ctx.tags == c.tags
    &&& ctx.vars.len() == 0
    &&& ctx.source_event is None
    &&& ctx.caster == Some(q.caster)
    &&& ctx.current_target == q.target
}

/// A running execution of a skill, from a cast.
pub open spec fn is_of(a: ActiveView, c: CompiledRecordView, q: CastRequestView, id: u64) -> bool {
    &&& a.skill_id == c.id
    &&& a.execution_id == id
    &&& a.compiled_skill == c.entity
    &&& a.caster == q.caster
    &&& a.target == q.target
}

/// The law of casting: a skill in the library that can be paid for runs its root, in a context of its
/// own with the next number and all its steps; it is finished if nothing of it waits, else suspended,
/// and it has failed if the root fails; what was paid is paid.
pub proof fn law_casts_run_the_root(
    q: CastRequestView,
    skill_entity: u64,
    library: LibraryView,
    compiled: Seq<CompiledRecordView>,
    i: int,
    step_budget: u32,
    s: StakesView,
    env: EnvView,
)
    requires
        library.entities.contains_key(q.skill),
        first_record(compiled, i, library.entities[q.skill]),
        compiled[i].roots is Some,
        compiled[i].roots->0.len() > 0,
        s.last < u64::MAX,
    ensures
        ({
            let c = compiled[i];
            let root = c.roots->0[0];
            let done = cast(q, skill_entity, library, compiled, step_budget, s, env);
            exists|before: ContextView, ctx: ContextView|
                {
                    &&& #[trigger] begins(before, c, q)
                    &&& #[trigger] begins(ctx, c, q)
                    &&& ctx.skill_entity == Some(skill_entity)
                    &&& ctx.execution_id == s.last + 1
                    &&& ctx.step_budget == step_budget
                    &&& ctx.step_budget_remaining == step_budget
                    &&& match payment(
                        c.id,
                        c.requirements,
                        q.caster,
                        before,
                        s.pools,
                        s.cooldowns,
                        env.numbers,
                    ) {
                        PaymentView::Ask(x) => done == Err::<
                            (CastOutcomeView, StakesView),
                            QuestionView,
                        >(x),
                        PaymentView::Refused { failure, pools } => {
                            &&& done matches Ok((o, t))
                            &&& o == (CastOutcomeView::Rejected {
                                request: q,
                                message: RejectionView::Requirement(failure),
                            })
                            &&& t.pools == pools && t.cooldowns == s.cooldowns && t.last == s.last
                        },
                        PaymentView::Paid { pools, cooldowns } => match node_run(
                            root,
                            ctx,
                            env,
                        ).out {
                            Err(ErrorView::Unanswered(x)) => done == Err::<
                                (CastOutcomeView, StakesView),
                                QuestionView,
                            >(x),
                            ran => {
                                &&& done matches Ok((o, t))
                                &&& t.pools == pools && t.cooldowns == cooldowns && t.last == s.last
                                    + 1
                                &&& ran matches Ok(out) ==> if out.branches.len() == 0 {
                                    o matches CastOutcomeView::Finished { active, output, finished }
                                        && is_of(active, c, q, (s.last + 1) as u64) && output == out
                                        && finished.skill == c.id && finished.execution_id == s.last
                                        + 1 && finished.caster == q.caster && finished.target
                                        == q.target
                                } else {
                                    o matches CastOutcomeView::Suspended { active, output } && is_of(
                                        active,
                                        c,
                                        q,
                                        (s.last + 1) as u64,
                                    ) && output == out
                                }
                                &&& ran matches Err(e) ==> o matches CastOutcomeView::Failed {
                                    active,
                                    failed,
                                } && is_of(active, c, q, (s.last + 1) as u64) && failed.skill
                                    == Some(c.id) && failed.execution_id == Some(
                                    (s.last + 1) as u64,
                                ) && failed.skill_entity == Some(skill_entity) && failed.error == e
                            },
                        },
                    }
                }
        }),
{
    lemma_first_record(compiled, i, 0, library.entities[q.skill]);
    let c = compiled[i];
    let before = crate::cast::requirement_context(c, q);
    let ctx = crate::cast::cast_context(c, q, (s.last + 1) as u64, skill_entity, step_budget);
    assert(begins(before, c, q));
    assert(begins(ctx, c, q));
}

/// The law of casting: a skill that is not in the library, one whose compiled form is not in the
/// world and one without a root are refused, and nothing is paid.
pub proof fn law_casts_need_a_skill(
    q: CastRequestView,
    skill_entity: u64,
    library: LibraryView,
    compiled: Seq<CompiledRecordView>,
    step_budget: u32,
    s: StakesView,
    env: EnvView,
)
    requires
        !library.entities.contains_key(q.skill) || (forall|i: int|
            0 <= i < compiled.len() ==> (#[trigger] compiled[i]).entity
                != library.entities[q.skill]) || (exists|i: int| #[trigger]
            first_record(compiled, i, library.entities[q.skill]) && (compiled[i].roots is None
                || compiled[i].roots->0.len() == 0)),
    ensures
        cast(q, skill_entity, library, compiled, step_budget, s, env) matches Ok((o, t)) && t == s
            && (o matches CastOutcomeView::Rejected { request, message } && request == q
            && message is Text),
{
    if library.entities.contains_key(q.skill) {
        let e = library.entities[q.skill];
        if forall|i: int| 0 <= i < compiled.len() ==> (#[trigger] compiled[i]).entity != e {
            lemma_no_record(compiled, 0, e);
        } else {
            let i = choose|i: int| #[trigger]
                first_record(compiled, i, e) && (compiled[i].roots is None
                    || compiled[i].roots->0.len() == 0);
            lemma_first_record(compiled, i, 0, e);
        }
    }
}

proof fn lemma_no_record(l: Seq<CompiledRecordView>, k: int, entity: u64)
    requires
        0 <= k,
        forall|i: int| 0 <= i < l.len() ==> (#[trigger] l[i]).entity != entity,
    ensures
        compiled_record(l, entity, k) is None,
    decreases l.len() - k,
{
    if k < l.len() {
        lemma_no_record(l, k + 1, entity);
    }
}

/// The law of requirements: requirements are paid as their bill says, and an invalid one refuses the
/// cast and costs nothing.
pub proof fn law_requirements_are_billed(
    id: Seq<char>,
    reqs: Seq<crate::def::RequirementView>,
    caster: u64,
    ctx: ContextView,
    pools: crate::ledger::LedgerMap,
    cooldowns: crate::ledger::LedgerMap,
    n: crate::number::NumbersView,
)
    ensures
        match bill_of(reqs, ctx, n) {
            BillView::Ask(q) => payment(id, reqs, caster, ctx, pools, cooldowns, n)
                == PaymentView::Ask(q),
            BillView::Invalid(e) => payment(id, reqs, caster, ctx, pools, cooldowns, n)
                == (PaymentView::Refused { failure: FailureView::Invalid(e), pools }),
            BillView::Bill { costs, cooldown } => payment(
                id,
                reqs,
                caster,
                ctx,
                pools,
                cooldowns,
                n,
            ) == bill_paid(id, costs, cooldown, caster, pools, cooldowns, n),
        },
{
}

proof fn lemma_casts_gathered(
    r: Seq<CastRequestView>,
    e: Seq<u64>,
    k: int,
    so_far: Seq<CastOutcomeView>,
    library: LibraryView,
    compiled: Seq<CompiledRecordView>,
    step_budget: u32,
    s: StakesView,
    env: EnvView,
)
    requires
        0 <= k,
    ensures
        casts(r, e, k, so_far, library, compiled, step_budget, s, env) == match casts(
            r,
            e,
            k,
            Seq::empty(),
            library,
            compiled,
            step_budget,
            s,
            env,
        ) {
            Ok((l, t)) => Ok((so_far + l, t)),
            Err(q) => Err(q),
        },
    decreases r.len() - k,
{
    let none = Seq::<CastOutcomeView>::empty();
    if k < r.len() {
        match cast(r[k], e[k], library, compiled, step_budget, s, env) {
            Ok((o, t)) => {
                lemma_casts_gathered(
                    r,
                    e,
                    k + 1,
                    so_far.push(o),
                    library,
                    compiled,
                    step_budget,
                    t,
                    env,
                );
                lemma_casts_gathered(
                    r,
                    e,
                    k + 1,
                    none.push(o),
                    library,
                    compiled,
                    step_budget,
                    t,
                    env,
                );
                match casts(r, e, k + 1, none, library, compiled, step_budget, t, env) {
                    Ok((l, _)) => {
                        assert(so_far.push(o) + l =~= so_far + (none.push(o) + l));
                    },
                    Err(_) => {},
                }
            },
            Err(_) => {},
        }
    } else {
        assert(so_far + none =~= so_far);
    }
}

proof fn lemma_casts_shift(
    q: CastRequestView,
    x: u64,
    r: Seq<CastRequestView>,
    e: Seq<u64>,
    k: int,
    so_far: Seq<CastOutcomeView>,
    library: LibraryView,
    compiled: Seq<CompiledRecordView>,
    step_budget: u32,
    s: StakesView,
    env: EnvView,
)
    requires
        0 <= k,
        r.len() == e.len(),
    ensures
        casts(
            seq![q] + r,
            seq![x] + e,
            k + 1,
            so_far,
            library,
            compiled,
            step_budget,
            s,
            env,
        ) == casts(r, e, k, so_far, library, compiled, step_budget, s, env),
    decreases r.len() - k,
{
    if k < r.len() {
        assert((seq![q] + r)[k + 1] == r[k]);
        assert((seq![x] + e)[k + 1] == e[k]);
        match cast(r[k], e[k], library, compiled, step_budget, s, env) {
            Ok((o, t)) => lemma_casts_shift(
                q,
                x,
                r,
                e,
                k + 1,
                so_far.push(o),
                library,
                compiled,
                step_budget,
                t,
                env,
            ),
            Err(_) => {},
        }
    }
}

/// The law of several casts: they are made one after another, each with what those before it have
/// left, and their outcomes stand in the same order.
pub proof fn law_casts_in_order(
    q: CastRequestView,
    x: u64,
    r: Seq<CastRequestView>,
    e: Seq<u64>,
    library: LibraryView,
    compiled: Seq<CompiledRecordView>,
    step_budget: u32,
    s: StakesView,
    env: EnvView,
)
    requires
        r.len() == e.len(),
    ensures
        casts(
            Seq::empty(),
            Seq::empty(),
            0,
            Seq::empty(),
            library,
            compiled,
            step_budget,
            s,
            env,
        ) == Ok::<(Seq<CastOutcomeView>, StakesView), QuestionView>((Seq::empty(), s)),
        casts(
            seq![q] + r,
            seq![x] + e,
            0,
            Seq::empty(),
            library,
            compiled,
            step_budget,
            s,
            env,
        ) == match cast(q, x, library, compiled, step_budget, s, env) {
            Err(y) => Err(y),
            Ok((o, t)) => match casts(
                r,
                e,
                0,
                Seq::empty(),
                library,
                compiled,
                step_budget,
                t,
                env,
            ) {
                Err(y) => Err(y),
                Ok((l, u)) => Ok((seq![o] + l, u)),
            },
        },
{
    let none = Seq::<CastOutcomeView>::empty();
    assert((seq![q] + r)[0] == q && (seq![x] + e)[0] == x);
    match cast(q, x, library, compiled, step_budget, s, env) {
        Ok((o, t)) => {
            assert(none.push(o) =~= seq![o]);
            lemma_casts_shift(
                q,
                x,
                r,
                e,
                0,
                none.push(o),
                library,
                compiled,
                step_budget,
                t,
                env,
            );
            lemma_casts_gathered(r, e, 0, none.push(o), library, compiled, step_budget, t, env);
        },
        Err(_) => {},
    }
}

/// An effect is attached as it was asked for: for its execution, at its target, of its kind, with the
/// node that runs when it goes.
pub open spec fn attached_as(x: EffectView, s: SpawnView, ctx: ContextView) -> bool {
    &&& x.execution_id == s.request.execution_id
    &&& x.target == s.request.target
    &&& x.kind == s.request.kind
    &&& x.on_remove == s.on_remove
    &&& x.skill_id == ctx.skill_id
    &&& x.caster == ctx.caster
    &&& x.ctx == ctx
}

/// An effect lasts for as long as it was asked for: for ever where nothing is said, and for no time
/// where the time is below zero.
pub open spec fn lasts_for(x: EffectView, duration: Option<SkillNumber>, env: EnvView) -> bool {
    match duration {
        None => x.timer is None,
        Some(d) => {
            &&& x.timer is Some
            &&& x.timer->0.elapsed == 0 && !x.timer->0.finished
            &&& num_lt(zero(), d) ==> env.numbers.spans.contains_pair(d, x.timer->0.duration)
            &&& num_lt(d, zero()) ==> env.numbers.spans.contains_pair(zero(), x.timer->0.duration)
        },
    }
}

/// The law of effects: the last effect that is to come is attached next; where it has a node for its
/// coming, that node runs, what it hands out is handed out behind what was before, the effects that
/// it brings are to come too, and its failure is reported but does not keep the effect away.
pub proof fn law_effects_are_attached(w: WorkView, env: EnvView)
    requires
        w.pending.len() > 0,
        w.output.effects.len() == 0,
        work_step(w, env) is Ok,
    ensures
        ({
            let s = w.pending.last();
            let v = work_step(w, env)->Ok_0;
            let x = v.spawned.last();
            &&& v.spawned.len() == w.spawned.len() + 1
            &&& v.spawned.drop_last() =~= w.spawned
            &&& lasts_for(x, s.duration_seconds, env)
            &&& s.on_add is None ==> attached_as(x, s, s.ctx) && v.output == w.output && v.pending
                =~= w.pending.drop_last() && v.failed == w.failed
            &&& s.on_add matches Some(node) ==> {
                let ran = node_run(node, s.ctx, env);
                &&& attached_as(x, s, ran.ctx)
                &&& ran.out matches Ok(o) ==> v.failed == w.failed && v.output.branches
                    == w.output.branches + o.branches && v.output.intents == w.output.intents
                    + o.intents && v.output.signals == w.output.signals + o.signals
                    && v.output.effect_requests == w.output.effect_requests + o.effect_requests
                    && v.output.effect_resolved == w.output.effect_resolved + o.effect_resolved
                    && v.pending =~= w.pending.drop_last() + o.effects
                &&& ran.out matches Err(e) ==> v.output == w.output && v.pending
                    =~= w.pending.drop_last() && v.failed.len() == w.failed.len() + 1
                    && v.failed.drop_last() =~= w.failed && v.failed.last().error == e
                    && v.failed.last().skill == Some(s.ctx.skill_id) && v.failed.last().execution_id
                    == Some(s.ctx.execution_id) && v.failed.last().skill_entity
                    == s.ctx.skill_entity
            }
        }),
{
    let s = w.pending.last();
    if s.duration_seconds is Some {
        law_larger(s.duration_seconds->0, zero());
    }
    if s.on_add is Some {
        match node_run(s.on_add->0, s.ctx, env).out {
            Ok(o) => {
                assert(w.output.effects + o.effects =~= o.effects);
            },
            Err(_) => {},
        }
    }
}

/// The law of effects: what an output brings is to come, and attaching goes on until nothing is to
/// come or the limit is reached, one effect at a time.
pub proof fn law_all_effects_are_attached(o: OutputView, w: WorkView, limit: nat, env: EnvView)
    ensures
        work_of(o).pending == o.effects && work_of(o).spawned.len() == 0 && work_of(o).failed.len()
            == 0 && work_of(o).output == (OutputView { effects: Seq::empty(), ..o }),
        w.pending.len() == 0 ==> work_steps(w, limit, env) == (w, None::<QuestionView>),
        w.pending.len() > 0 && work_step(w, env) is Ok ==> work_steps(w, limit + 1, env)
            == work_steps(work_step(w, env)->Ok_0, limit, env),
        w.pending.len() > 0 && work_step(w, env) is Err ==> work_steps(w, limit + 1, env) == (
            w,
            Some(work_step(w, env)->Err_0),
        ),
{
}

/// The law of effects: an effect without an end stays; one with an end goes when its time has passed
/// and runs its node then, once, in its own context; until then its time goes on.
pub proof fn law_effects_go(x: EffectView, t: SkillTimer, delta: u128, env: EnvView)
    requires
        !t.finished,
    ensures
        x.timer is None ==> effect_ticked(x, delta, env) == Ok::<EffectTickView, QuestionView>(
            EffectTickView::Unchanged,
        ),
        x.timer == Some(t) && t.elapsed + delta < t.duration ==> effect_ticked(x, delta, env)
            == Ok::<EffectTickView, QuestionView>(
            EffectTickView::Running(
                SkillTimer {
                    duration: t.duration,
                    elapsed: (t.elapsed + delta) as u128,
                    finished: false,
                },
            ),
        ),
        x.timer == Some(t) && t.elapsed + delta >= t.duration && x.on_remove is None
            ==> effect_ticked(x, delta, env) == Ok::<EffectTickView, QuestionView>(
            EffectTickView::Expired(None),
        ),
        x.timer == Some(t) && t.elapsed + delta >= t.duration && x.on_remove is Some
            ==> match node_run(x.on_remove->0, x.ctx, env).out {
            Ok(o) => effect_ticked(x, delta, env) == Ok::<EffectTickView, QuestionView>(
                EffectTickView::Expired(Some(o)),
            ),
            Err(ErrorView::Unanswered(q)) => effect_ticked(x, delta, env) == Err::<
                EffectTickView,
                QuestionView,
            >(q),
            Err(e) => effect_ticked(x, delta, env) matches Ok(EffectTickView::ExpiredWithFailure(f))
                && f.error == e && f.skill == Some(x.skill_id) && f.execution_id == Some(
                x.execution_id,
            ),
        },
{
}

} // verus!
