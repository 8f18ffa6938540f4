//! What the reference actions ask of the game.
use crate::action::{
    effect_requested, intent_emitted, next_request, request_number, ActionOutputView, ActionSlot,
    InputView, SettlementMode, SkillAction, SkillActionWait,
};
use crate::context::ContextView;
use crate::error::{ErrorView, MessageView};
use crate::gameplay::{
    hit_signal, with_default, with_gameplay, ApplyBuffAction, DamageAction, ProjectileHit,
    SpawnProjectileAction, SpellAction, TraceAction,
};
use crate::number::{NumbersView, SkillNumber};
use crate::registry::{CastModelSlot, RegistryView};
use crate::table::{
    distinct, has_key, law_put_then_lookup, lemma_distinct, lemma_found, lookup, put,
};
use crate::value::{ArgsView, ValueView};
use vstd::prelude::*;

verus! {

/// An argument reads as a text: texts as themselves, numbers as the host shows them, flags as
/// `true` and `false`, and anything else not at all.
pub open spec fn reads_as(args: ArgsView, key: Seq<char>, n: NumbersView, t: Option<Seq<char>>) -> bool {
    match lookup(args, key) {
        Some(ValueView::String(s)) => t == Some(s),
        Some(ValueView::Number(x)) => n.shown.contains_key(x) && t == Some(n.shown[x]),
        Some(ValueView::Bool(b)) => t is Some && (b ==> t->0 == "true"@) && (!b ==> t->0
            == "false"@),
        _ => t is None,
    }
}

/// An argument reads as a number: numbers as themselves, texts as the host parses them, and
/// anything else not at all.
pub open spec fn counts_as(args: ArgsView, key: Seq<char>, n: NumbersView, x: Option<SkillNumber>) -> bool {
    match lookup(args, key) {
        Some(ValueView::Number(y)) => x == Some(y),
        Some(ValueView::String(s)) => n.parsed.contains_key(s) && x == n.parsed[s],
        _ => x is None,
    }
}

/// The text, or another where there is none.
pub open spec fn or_else(t: Option<Seq<char>>, other: Seq<char>) -> Seq<char> {
    if t is Some {
        t->0
    } else {
        other
    }
}

/// A context that knows its entity and its caster.
pub open spec fn is_able(ctx: ContextView) -> bool {
    ctx.skill_entity is Some && ctx.caster is Some
}

/// One more intent of a kind, of this skill, from its caster and at its target.
pub open spec fn intends(o: ActionOutputView, out: ActionOutputView, ctx: ContextView, kind: Seq<char>) -> bool {
    &&& o.intents.len() == out.intents.len() + 1
    &&& forall|i: int| 0 <= i < out.intents.len() ==> #[trigger] o.intents[i] == out.intents[i]
    &&& o.intents.last().kind == kind
    &&& Some(o.intents.last().skill_entity) == ctx.skill_entity
    &&& Some(o.intents.last().caster) == ctx.caster
    &&& o.intents.last().target == ctx.current_target
}

/// Nothing is asked for but intents.
pub open spec fn asks_no_more(o: ActionOutputView, out: ActionOutputView) -> bool {
    &&& o.effect_requests == out.effect_requests
    &&& o.effect_resolved == out.effect_resolved
    &&& o.waits == out.waits
    &&& o.effects == out.effects
    &&& o.vars == out.vars
}

/// The law of intents: an intent goes to the game with its kind and its payload, from this skill, its
/// caster and at its target, behind those before it; without an entity or a caster there is none.
pub proof fn law_intents(out: ActionOutputView, ctx: ContextView, kind: Seq<char>, payload: ArgsView)
    ensures
        is_able(ctx) ==> (intent_emitted(out, ctx, kind, payload) matches Ok(o) && intends(
            o,
            out,
            ctx,
            kind,
        ) && o.intents.last().payload == payload && asks_no_more(o, out)),
        !is_able(ctx) ==> intent_emitted(out, ctx, kind, payload) is Err,
{
}

/// The law of traces: a trace goes to the game with its label, or else its id, or else `trace`.
pub proof fn law_trace(
    ctx: ContextView,
    input: InputView,
    out: ActionOutputView,
    n: NumbersView,
    label: Option<Seq<char>>,
    id: Option<Seq<char>>,
)
    requires
        is_able(ctx),
        reads_as(input.args, "label"@, n, label),
        reads_as(input.args, "id"@, n, id),
    ensures
        TraceAction.emits(ctx, input, out, n) matches Ok(o) && intends(o, out, ctx, "trace"@)
            && asks_no_more(o, out) && o.intents.last().payload.len() == 1 && lookup(
            o.intents.last().payload,
            "label"@,
        ) == Some(ValueView::String(or_else(label, or_else(id, "trace"@)))),
{
    let p = TraceAction.emits(ctx, input, out, n)->Ok_0.intents.last().payload;
    assert(p[0].0 == "label"@);
    lemma_found(p, 0);
}

/// The law of projectiles: the prefab that a skill names is the one that the game is asked for, and
/// `projectile` where it names none; all other arguments go along as they are.
pub proof fn law_spawn_projectile(
    ctx: ContextView,
    input: InputView,
    out: ActionOutputView,
    n: NumbersView,
    prefab: Option<Seq<char>>,
    key: Seq<char>,
)
    requires
        is_able(ctx),
        distinct(input.args),
        reads_as(input.args, "prefab"@, n, prefab),
    ensures
        SpawnProjectileAction.emits(ctx, input, out, n) matches Ok(o) && intends(
            o,
            out,
            ctx,
            "spawn_projectile"@,
        ) && asks_no_more(o, out) && lookup(o.intents.last().payload, "prefab"@) == Some(
            ValueView::String(or_else(prefab, "projectile"@)),
        ) && (key != "prefab"@ ==> lookup(o.intents.last().payload, key) == lookup(
            input.args,
            key,
        )),
{
    law_put_then_lookup(
        input.args,
        "prefab"@,
        ValueView::String(or_else(prefab, "projectile"@)),
        key,
    );
}

proof fn lemma_default(args: ArgsView, key: Seq<char>, text: Seq<char>, other: Seq<char>)
    requires
        distinct(args),
    ensures
        distinct(with_default(args, key, text)),
        lookup(with_default(args, key, text), key) == if has_key(args, key) {
            lookup(args, key)
        } else {
            Some(ValueView::String(text))
        },
        other != key ==> lookup(with_default(args, key, text), other) == lookup(args, other),
{
    if !has_key(args, key) {
        lemma_distinct(args, key, ValueView::String(text));
        law_put_then_lookup(args, key, ValueView::String(text), other);
    }
}

/// The argument as it is, or a text where it is missing.
pub open spec fn given_or(args: ArgsView, key: Seq<char>, text: Seq<char>) -> Option<ValueView> {
    if lookup(args, key) is Some {
        lookup(args, key)
    } else {
        Some(ValueView::String(text))
    }
}

/// The law of spells: a spell goes to the game with its arguments; where they lack an id it is
/// `spell`, and where they lack a bonus it is `0`.
pub proof fn law_spell(
    ctx: ContextView,
    input: InputView,
    out: ActionOutputView,
    n: NumbersView,
    key: Seq<char>,
)
    requires
        is_able(ctx),
        distinct(input.args),
    ensures
        SpellAction.emits(ctx, input, out, n) matches Ok(o) && intends(o, out, ctx, "spell"@)
            && asks_no_more(o, out) && lookup(o.intents.last().payload, key) == if key == "id"@ {
            given_or(input.args, "id"@, "spell"@)
        } else if key == "damage_bonus"@ {
            given_or(input.args, "damage_bonus"@, "0"@)
        } else {
            lookup(input.args, key)
        },
{
    reveal_strlit("id");
    reveal_strlit("damage_bonus");
    assert("id"@.len() == 2 && "damage_bonus"@.len() == 12);
    lemma_default(input.args, "id"@, "spell"@, key);
    lemma_default(input.args, "id"@, "spell"@, "damage_bonus"@);
    lemma_default(with_default(input.args, "id"@, "spell"@), "damage_bonus"@, "0"@, key);
}

/// A way of settlement has this name.
pub open spec fn mode_named(t: Option<Seq<char>>, mode: SettlementMode) -> bool {
    match mode {
        SettlementMode::Sync => t == Some("sync"@) || t == Some("Sync"@),
        SettlementMode::Request => t is None || t == Some("request"@) || t == Some("Request"@),
        SettlementMode::Await => t == Some("await"@) || t == Some("Await"@),
    }
}

proof fn lemma_modes()
    ensures
        "sync"@ != "request"@,
        "sync"@ != "Request"@,
        "sync"@ != "await"@,
        "sync"@ != "Await"@,
        "Sync"@ != "request"@,
        "Sync"@ != "Request"@,
        "Sync"@ != "await"@,
        "Sync"@ != "Await"@,
        "request"@ != "await"@,
        "request"@ != "Await"@,
        "Request"@ != "await"@,
        "Request"@ != "Await"@,
{
    reveal_strlit("sync");
    reveal_strlit("Sync");
    reveal_strlit("request");
    reveal_strlit("Request");
    reveal_strlit("await");
    reveal_strlit("Await");
    assert("sync"@.len() == 4 && "Sync"@.len() == 4);
    assert("request"@.len() == 7 && "Request"@.len() == 7);
    assert("await"@.len() == 5 && "Await"@.len() == 5);
}

/// One more request, of this execution, from the caster.
pub open spec fn requests(o: ActionOutputView, out: ActionOutputView, ctx: ContextView) -> bool {
    &&& o.effect_requests.len() == out.effect_requests.len() + 1
    &&& forall|i: int|
        0 <= i < out.effect_requests.len() ==> #[trigger] o.effect_requests[i]
            == out.effect_requests[i]
    &&& o.effect_requests.last().execution_id == ctx.execution_id
    &&& o.effect_requests.last().source == ctx.caster
    &&& o.effect_requests.last().request_id == request_number(
        ctx,
        out.effect_requests.len() as u64,
    )
}

/// The law of damage: damage goes to the game as an intent with all arguments, and `?` for an amount
/// that is missing; at a target it is also requested, once, with its amount, or zero where it has
/// none. Settled at once it is answered with the same amount and target, and the skill can read
/// `last_damage_amount`; awaited the skill waits for exactly that request; otherwise nothing waits.
pub proof fn law_damage(
    ctx: ContextView,
    input: InputView,
    out: ActionOutputView,
    n: NumbersView,
    amount: Option<SkillNumber>,
    named: Option<Seq<char>>,
    mode: SettlementMode,
    key: Seq<char>,
)
    requires
        is_able(ctx),
        distinct(input.args),
        distinct(out.vars),
        counts_as(input.args, "amount"@, n, amount),
        reads_as(input.args, "mode"@, n, named),
        mode_named(named, mode),
    ensures
        DamageAction.emits(ctx, input, out, n) matches Ok(o) && {
            &&& intends(o, out, ctx, "damage"@)
            &&& lookup(o.intents.last().payload, key) == if key == "amount"@ {
                given_or(input.args, "amount"@, "?"@)
            } else {
                lookup(input.args, key)
            }
            &&& o.effects == out.effects
            &&& ctx.current_target is None ==> asks_no_more(o, out)
            &&& ctx.current_target is Some ==> {
                let q = o.effect_requests.last();
                &&& requests(o, out, ctx)
                &&& q.kind == "damage"@ && q.target == ctx.current_target && q.mode == mode
                &&& q.payload.len() == 1
                &&& q.payload[0].0 == "amount"@
                &&& q.payload[0].1 is Number
                &&& amount is Some ==> q.payload[0].1->Number_0 == amount->0
                &&& amount is None ==> q.payload[0].1->Number_0.bits == 0
                &&& mode is Sync ==> {
                    &&& o.effect_resolved.len() == out.effect_resolved.len() + 1
                    &&& o.effect_resolved.drop_last() =~= out.effect_resolved
                    &&& o.effect_resolved.last().request_id == q.request_id
                    &&& o.effect_resolved.last().execution_id == ctx.execution_id
                    &&& o.effect_resolved.last().source == ctx.caster
                    &&& o.effect_resolved.last().target == ctx.current_target
                    &&& o.effect_resolved.last().kind == "damage"@
                    &&& o.effect_resolved.last().payload == q.payload
                    &&& lookup(o.vars, "last_damage_amount"@) == Some(q.payload[0].1)
                    &&& key != "last_damage_amount"@ ==> lookup(o.vars, key) == lookup(
                        out.vars,
                        key,
                    )
                }
                &&& !(mode is Sync) ==> o.effect_resolved == out.effect_resolved && o.vars
                    == out.vars
                &&& mode is Await ==> o.waits.len() == out.waits.len() + 1 && o.waits.drop_last()
                    =~= out.waits && o.waits.last() == (SkillActionWait::EffectResolved {
                    request_id: q.request_id,
                })
                &&& !(mode is Await) ==> o.waits == out.waits
            }
        },
{
    lemma_modes();
    lemma_default(input.args, "amount"@, "?"@, key);
    let o = DamageAction.emits(ctx, input, out, n)->Ok_0;
    if ctx.current_target is Some {
        let q = o.effect_requests.last();
        law_put_then_lookup(out.vars, "last_damage_amount"@, q.payload[0].1, key);
    }
}

/// The law of damage: a way of settlement that has no known name is an error.
pub proof fn law_unknown_settlement(
    ctx: ContextView,
    input: InputView,
    out: ActionOutputView,
    n: NumbersView,
    amount: Option<SkillNumber>,
    named: Seq<char>,
)
    requires
        is_able(ctx),
        ctx.current_target is Some,
        counts_as(input.args, "amount"@, n, amount),
        reads_as(input.args, "mode"@, n, Some(named)),
        forall|m: SettlementMode| !mode_named(Some(named), m),
    ensures
        DamageAction.emits(ctx, input, out, n) is Err,
{
    assert(!mode_named(Some(named), SettlementMode::Sync));
    assert(!mode_named(Some(named), SettlementMode::Request));
    assert(!mode_named(Some(named), SettlementMode::Await));
}

/// The first of the payloads under a name.
pub open spec fn first_under(t: Seq<(Seq<char>, Seq<u64>)>, key: Seq<char>) -> Option<u64> {
    match lookup(t, key) {
        Some(l) => if l.len() > 0 {
            Some(l[0])
        } else {
            None
        },
        None => None,
    }
}

/// The law of buffs: a buff goes to the game as an intent with all arguments; at a target it is also
/// requested, once, by its name and for its duration, and attached as an effect that runs what stands
/// under `on_add` when it comes and what stands under `on_remove` when it goes.
pub proof fn law_buff(
    ctx: ContextView,
    input: InputView,
    out: ActionOutputView,
    n: NumbersView,
    buff: Option<Seq<char>>,
    duration: Option<SkillNumber>,
    key: Seq<char>,
)
    requires
        is_able(ctx),
        distinct(input.args),
        reads_as(input.args, "buff"@, n, buff),
        counts_as(input.args, "duration"@, n, duration),
    ensures
        ApplyBuffAction.emits(ctx, input, out, n) matches Ok(o) && {
            let name = or_else(buff, "buff"@);
            &&& intends(o, out, ctx, "apply_buff"@)
            &&& lookup(o.intents.last().payload, key) == if key == "buff"@ {
                given_or(input.args, "buff"@, name)
            } else {
                lookup(input.args, key)
            }
            &&& o.effect_resolved == out.effect_resolved && o.waits == out.waits && o.vars
                == out.vars
            &&& ctx.current_target is None ==> asks_no_more(o, out)
            &&& ctx.current_target is Some ==> {
                let q = o.effect_requests.last();
                let s = o.effects.last();
                &&& requests(o, out, ctx)
                &&& q.kind == "apply_buff"@ && q.target == ctx.current_target && q.mode is Request
                &&& lookup(q.payload, "buff"@) == Some(ValueView::String(name))
                &&& duration is Some ==> lookup(q.payload, "duration"@) == Some(
                    ValueView::Number(duration->0),
                ) && q.payload.len() == 2
                &&& duration is None ==> q.payload.len() == 1
                &&& o.effects.len() == out.effects.len() + 1
                &&& o.effects.drop_last() =~= out.effects
                &&& s.request == q
                &&& s.duration_seconds == duration
                &&& s.on_add == first_under(input.payloads, "on_add"@)
                &&& s.on_remove == first_under(input.payloads, "on_remove"@)
                &&& s.ctx == ctx
            }
        },
{
    let name = or_else(buff, "buff"@);
    lemma_default(input.args, "buff"@, name, key);
    let o = ApplyBuffAction.emits(ctx, input, out, n)->Ok_0;
    if ctx.current_target is Some {
        let one = crate::gameplay::one_arg("buff"@, ValueView::String(name));
        reveal_strlit("buff");
        reveal_strlit("duration");
        assert("buff"@.len() == 4 && "duration"@.len() == 8);
        assert(one[0].0 == "buff"@);
        lemma_found(one, 0);
        assert(!has_key(one, "duration"@));
        if duration is Some {
            law_put_then_lookup(one, "duration"@, ValueView::Number(duration->0), "buff"@);
        }
    }
}

/// The law of arguments: `spawn_projectile` needs a prefab or a payload, `damage` an amount,
/// `apply_buff` a buff and `spell` an id; `trace` needs nothing.
pub proof fn law_needed_arguments(args: ArgsView, known: Seq<Seq<char>>)
    ensures
        TraceAction.accepts(args, known) is Ok,
        SpawnProjectileAction.accepts(args, known) is Ok <==> lookup(args, "prefab"@) is Some
            || lookup(args, "payload"@) is Some,
        DamageAction.accepts(args, known) is Ok <==> lookup(args, "amount"@) is Some,
        ApplyBuffAction.accepts(args, known) is Ok <==> lookup(args, "buff"@) is Some,
        SpellAction.accepts(args, known) is Ok <==> lookup(args, "id"@) is Some,
{
}

/// The law of missing roles: without an entity or a caster no action goes well, and nothing is asked
/// for.
pub proof fn law_nothing_without_a_caster(
    ctx: ContextView,
    input: InputView,
    out: ActionOutputView,
    n: NumbersView,
)
    requires
        !is_able(ctx),
    ensures
        TraceAction.emits(ctx, input, out, n) is Err,
        TraceAction.leaves(ctx, input, out, n) == out,
        SpawnProjectileAction.emits(ctx, input, out, n) is Err,
        SpawnProjectileAction.leaves(ctx, input, out, n) == out,
        DamageAction.emits(ctx, input, out, n) is Err,
        DamageAction.leaves(ctx, input, out, n) == out,
        ApplyBuffAction.emits(ctx, input, out, n) is Err,
        ApplyBuffAction.leaves(ctx, input, out, n) == out,
        SpellAction.emits(ctx, input, out, n) is Err,
        SpellAction.leaves(ctx, input, out, n) == out,
{
}

/// The law of requests: a request has the kind, the target, the payload and the way of settlement
/// that it was made with, and is of this execution and from its caster; only one that is settled at
/// once is answered, with all that it says, and only one that is awaited is waited for.
pub proof fn law_requests(
    out: ActionOutputView,
    ctx: ContextView,
    kind: Seq<char>,
    target: Option<u64>,
    payload: ArgsView,
    mode: SettlementMode,
)
    ensures
        ({
            let q = next_request(out, ctx, kind, target, payload, mode);
            let o = effect_requested(out, q);
            &&& requests(o, out, ctx)
            &&& o.effect_requests.last() == q
            &&& q.kind == kind && q.target == target && q.payload == payload && q.mode == mode
            &&& o.intents == out.intents && o.effects == out.effects && o.vars == out.vars
            &&& mode is Sync ==> o.effect_resolved.len() == out.effect_resolved.len() + 1
                && o.effect_resolved.drop_last() =~= out.effect_resolved && ({
                let r = o.effect_resolved.last();
                r.request_id == q.request_id && r.execution_id == q.execution_id && r.source
                    == q.source && r.target == target && r.kind == kind && r.payload == payload
            })
            &&& !(mode is Sync) ==> o.effect_resolved == out.effect_resolved
            &&& mode is Await ==> o.waits.len() == out.waits.len() + 1 && o.waits.drop_last()
                =~= out.waits && o.waits.last() == (SkillActionWait::EffectResolved {
                request_id: q.request_id,
            })
            &&& !(mode is Await) ==> o.waits == out.waits
        }),
{
}

/// The law of hits: a hit raises its signals for its execution alone, at what was hit, with the name
/// of the projectile and, where it is known, the position.
pub proof fn law_hits(hit: ProjectileHit, name: Seq<char>)
    ensures
        ({
            let s = hit_signal(hit, name);
            &&& s.name == name
            &&& s.execution_id == Some(hit.execution_id)
            &&& s.skill_entity is None
            &&& s.caster is None
            &&& s.target == hit.target
            &&& lookup(s.payload, "projectile"@) == Some(ValueView::String(hit.projectile_name@))
            &&& hit.position is None ==> s.payload.len() == 1
            &&& hit.position matches Some(p) ==> lookup(s.payload, "position"@) == Some(
                ValueView::List(
                    seq![
                        ValueView::Number(p[0]),
                        ValueView::Number(p[1]),
                        ValueView::Number(p[2]),
                    ],
                ),
            )
        }),
{
    let one = crate::gameplay::one_arg("projectile"@, ValueView::String(hit.projectile_name@));
    assert(one[0].0 == "projectile"@);
    lemma_found(one, 0);
    reveal_strlit("projectile");
    reveal_strlit("position");
    assert("projectile"@.len() == 10 && "position"@.len() == 8);
    if hit.position is Some {
        let p = hit.position->0;
        law_put_then_lookup(
            one,
            "position"@,
            ValueView::List(
                seq![ValueView::Number(p[0]), ValueView::Number(p[1]), ValueView::Number(p[2])],
            ),
            "projectile"@,
        );
    }
}

/// The law of missing roles, in words: an intent without an entity or a caster says which is missing.
pub proof fn law_missing_roles_are_named(
    out: ActionOutputView,
    ctx: ContextView,
    kind: Seq<char>,
    payload: ArgsView,
)
    ensures
        ctx.skill_entity is None ==> intent_emitted(out, ctx, kind, payload) == Err::<
            ActionOutputView,
            ErrorView,
        >(ErrorView::Runtime(MessageView::Text("skill context is missing its entity"@))),
        ctx.skill_entity is Some && ctx.caster is None ==> intent_emitted(out, ctx, kind, payload)
            == Err::<ActionOutputView, ErrorView>(
            ErrorView::Runtime(MessageView::Text("skill context is missing its caster"@)),
        ),
{
}

/// The law of the vocabulary: each reference action is registered under its own name, and so is the
/// cast model of decks; actions and cast models of other names are as before.
pub proof fn law_vocabulary_is_registered(
    r: RegistryView,
    trace: ActionSlot,
    projectile: ActionSlot,
    damage: ActionSlot,
    buff: ActionSlot,
    spell: ActionSlot,
    deck: CastModelSlot,
    other: Seq<char>,
)
    requires
        distinct(r.actions),
        distinct(r.cast_models),
    ensures
        ({
            let w = with_gameplay(r, trace, projectile, damage, buff, spell, deck);
            &&& lookup(w.actions, "trace"@) == Some(trace)
            &&& lookup(w.actions, "spawn_projectile"@) == Some(projectile)
            &&& lookup(w.actions, "damage"@) == Some(damage)
            &&& lookup(w.actions, "apply_buff"@) == Some(buff)
            &&& lookup(w.actions, "spell"@) == Some(spell)
            &&& lookup(w.cast_models, "wand_deck"@) == Some(deck)
            &&& other != "trace"@ && other != "spawn_projectile"@ && other != "damage"@ && other
                != "apply_buff"@ && other != "spell"@ ==> lookup(w.actions, other) == lookup(
                r.actions,
                other,
            )
            &&& other != "wand_deck"@ ==> lookup(w.cast_models, other) == lookup(
                r.cast_models,
                other,
            )
            &&& w.modifiers == r.modifiers
            &&& w.dsl_nodes == r.dsl_nodes
        }),
{
    reveal_strlit("trace");
    reveal_strlit("spawn_projectile");
    reveal_strlit("damage");
    reveal_strlit("apply_buff");
    reveal_strlit("spell");
    let a = put(r.actions, "trace"@, trace);
    let b = put(a, "spawn_projectile"@, projectile);
    let c = put(b, "damage"@, damage);
    let d = put(c, "apply_buff"@, buff);
    lemma_distinct(r.actions, "trace"@, trace);
    lemma_distinct(a, "spawn_projectile"@, projectile);
    lemma_distinct(b, "damage"@, damage);
    lemma_distinct(c, "apply_buff"@, buff);
    assert("trace"@.len() == 5 && "spell"@.len() == 5);
    assert("trace"@[0] != "spell"@[0]);
    assert("damage"@.len() == 6 && "apply_buff"@.len() == 10 && "spawn_projectile"@.len() == 16);
    law_put_then_lookup(r.actions, "trace"@, trace, other);
    law_put_then_lookup(a, "spawn_projectile"@, projectile, "trace"@);
    law_put_then_lookup(a, "spawn_projectile"@, projectile, other);
    law_put_then_lookup(b, "damage"@, damage, "trace"@);
    law_put_then_lookup(b, "damage"@, damage, "spawn_projectile"@);
    law_put_then_lookup(b, "damage"@, damage, other);
    law_put_then_lookup(c, "apply_buff"@, buff, "trace"@);
    law_put_then_lookup(c, "apply_buff"@, buff, "spawn_projectile"@);
    law_put_then_lookup(c, "apply_buff"@, buff, "damage"@);
    law_put_then_lookup(c, "apply_buff"@, buff, other);
    law_put_then_lookup(d, "spell"@, spell, "trace"@);
    law_put_then_lookup(d, "spell"@, spell, "spawn_projectile"@);
    law_put_then_lookup(d, "spell"@, spell, "damage"@);
    law_put_then_lookup(d, "spell"@, spell, "apply_buff"@);
    law_put_then_lookup(d, "spell"@, spell, other);
    law_put_then_lookup(r.cast_models, "wand_deck"@, deck, other);
}

} // verus!
