//! A reference vocabulary of actions, and a cast model for decks of spell cards.
use crate::action::{
    effect_requested, entities_under, first_entity, intent_emitted, next_request, ActionNamesView,
    ActionOutputView, ActionSlot, InputView, SettlementMode, SkillAction, SkillActionInput,
    SkillActionNames, SkillActionOutput, SkillResult, SpawnView,
};
use crate::context::{ContextView, SignalView, SkillContext, SkillRuntimeSignal};
use crate::branch::signals_view;
use crate::def::{DefView, SkillDef};
use crate::error::{invalid_text, ErrorView, MessageView, SkillError, SkillMessage};
use crate::execute::all_put;
use crate::number::{
    ask_parse, ask_result, ask_show, num_zero, NumberOp, NumberQuestion, NumberTable, NumbersView,
    QuestionView, SkillNumber,
};
use crate::registry::{
    CastModel, CastModelSlot, NamesView, RegistryView, SkillRegistry, SkillRegistryNames,
};
use crate::table::{has_key, lookup, put};
use crate::text::same_text;
use crate::value::{
    arg, args_view, copy_args, copy_node, copy_value, no_args, nodes_view, set_arg, ArgsView,
    NodeView, SkillArgs, SkillNode, SkillValue, ValueView,
};
use vstd::prelude::*;

verus! {

/// A request for damage.
pub type DamageRequest = crate::action::SkillEffectRequest;

/// The settlement of damage.
pub type DamageResolved = crate::action::SkillEffectResolved;

/// A request for a buff.
pub type ApplyBuffRequest = crate::action::SkillEffectRequest;

/// An argument as text: texts, numbers and flags have one.
pub open spec fn arg_text(args: ArgsView, key: Seq<char>, n: NumbersView) -> Result<
    Option<Seq<char>>,
    QuestionView,
> {
    match lookup(args, key) {
        Some(ValueView::String(s)) => Ok(Some(s)),
        Some(ValueView::Number(x)) => match ask_show(n, x) {
            Ok(s) => Ok(Some(s)),
            Err(q) => Err(q),
        },
        Some(ValueView::Bool(b)) => Ok(
            Some(
                if b {
                    "true"@
                } else {
                    "false"@
                },
            ),
        ),
        _ => Ok(None),
    }
}

/// An argument as text, or another text where it has none.
pub open spec fn arg_text_or(args: ArgsView, key: Seq<char>, other: Seq<char>, n: NumbersView) -> Result<
    Seq<char>,
    QuestionView,
> {
    match arg_text(args, key, n) {
        Ok(Some(s)) => Ok(s),
        Ok(None) => Ok(other),
        Err(q) => Err(q),
    }
}

/// An argument as number: numbers are one, and texts may denote one.
pub open spec fn arg_number(args: ArgsView, key: Seq<char>, n: NumbersView) -> Result<
    Option<SkillNumber>,
    QuestionView,
> {
    match lookup(args, key) {
        Some(ValueView::Number(x)) => Ok(Some(x)),
        Some(ValueView::String(s)) => ask_parse(n, s),
        _ => Ok(None),
    }
}

/// The arguments with a text under a name that they do not have.
pub open spec fn with_default(args: ArgsView, key: Seq<char>, text: Seq<char>) -> ArgsView {
    if has_key(args, key) {
        args
    } else {
        args.push((key, ValueView::String(text)))
    }
}

/// How damage is settled.
pub open spec fn mode_of(args: ArgsView, n: NumbersView) -> Result<SettlementMode, ErrorView> {
    match arg_text_or(args, "mode"@, "request"@, n) {
        Err(q) => Err(ErrorView::Unanswered(q)),
        Ok(s) => if s == "sync"@ || s == "Sync"@ {
            Ok(SettlementMode::Sync)
        } else if s == "request"@ || s == "Request"@ {
            Ok(SettlementMode::Request)
        } else if s == "await"@ || s == "Await"@ {
            Ok(SettlementMode::Await)
        } else {
            Err(invalid_text("damage"@, "unknown damage settlement mode `"@ + s + "`"@))
        },
    }
}

/// An argument as text.
pub fn trace_arg(args: &SkillArgs, key: &str, numbers: &NumberTable) -> (r: Result<
    Option<String>,
    NumberQuestion,
>)
    ensures
        match arg_text(args_view(*args), key@, numbers@) {
            Ok(Some(s)) => r matches Ok(Some(t)) && t@ == s,
            Ok(None) => r matches Ok(None),
            Err(q) => r matches Err(x) && x@ == q,
        },
{
    match arg(args, key) {
        Some(SkillValue::String(s)) => Ok(Some(s.clone())),
        Some(SkillValue::Number(x)) => match numbers.show(*x) {
            Ok(s) => Ok(Some(s)),
            Err(q) => Err(q),
        },
        Some(SkillValue::Bool(b)) => if *b {
            Ok(Some("true".to_owned()))
        } else {
            Ok(Some("false".to_owned()))
        },
        _ => Ok(None),
    }
}

fn trace_arg_or(args: &SkillArgs, key: &str, other: &str, numbers: &NumberTable) -> (r: Result<
    String,
    SkillError,
>)
    ensures
        match arg_text_or(args_view(*args), key@, other@, numbers@) {
            Ok(s) => r matches Ok(t) && t@ == s,
            Err(q) => r matches Err(e) && e@ == ErrorView::Unanswered(q),
        },
{
    match trace_arg(args, key, numbers) {
        Ok(Some(s)) => Ok(s),
        Ok(None) => Ok(other.to_owned()),
        Err(q) => Err(SkillError::Unanswered(q)),
    }
}

/// An argument as number.
pub fn number_arg(args: &SkillArgs, key: &str, numbers: &NumberTable) -> (r: Result<
    Option<SkillNumber>,
    NumberQuestion,
>)
    ensures
        match arg_number(args_view(*args), key@, numbers@) {
            Ok(x) => r == Ok::<Option<SkillNumber>, NumberQuestion>(x),
            Err(q) => r matches Err(x) && x@ == q,
        },
{
    match arg(args, key) {
        Some(SkillValue::Number(x)) => Ok(Some(*x)),
        Some(SkillValue::String(s)) => numbers.parse(s),
        _ => Ok(None),
    }
}

/// How damage is settled.
pub fn settlement_mode(args: &SkillArgs, numbers: &NumberTable) -> (r: Result<
    SettlementMode,
    SkillError,
>)
    ensures
        match mode_of(args_view(*args), numbers@) {
            Ok(m) => r == Ok::<SettlementMode, SkillError>(m),
            Err(e) => r matches Err(x) && x@ == e,
        },
{
    let mode = match trace_arg_or(args, "mode", "request", numbers) {
        Ok(s) => s,
        Err(e) => return Err(e),
    };
    let m: &str = mode.as_str();
    if same_text(m, "sync") || same_text(m, "Sync") {
        Ok(SettlementMode::Sync)
    } else if same_text(m, "request") || same_text(m, "Request") {
        Ok(SettlementMode::Request)
    } else if same_text(m, "await") || same_text(m, "Await") {
        Ok(SettlementMode::Await)
    } else {
        let mut reason: String = "unknown damage settlement mode `".to_owned();
        reason.append(m);
        reason.append("`");
        Err(SkillError::invalid_skill("damage", reason.as_str()))
    }
}

fn add_default(args: &mut SkillArgs, key: &str, text: &str)
    ensures
        args_view(*final(args)) == with_default(args_view(*old(args)), key@, text@),
{
    if arg(args, key).is_none() {
        set_arg(args, key.to_owned(), SkillValue::String(text.to_owned()));
    }
}

/// The arguments hold none of the names that an action needs.
fn lacks(args: &SkillArgs, key: &str) -> (r: bool)
    ensures
        r == !has_key(args_view(*args), key@),
{
    arg(args, key).is_none()
}

/// One named value.
pub open spec fn one_arg(key: Seq<char>, v: ValueView) -> ArgsView {
    seq![(key, v)]
}

fn single_arg(key: &str, value: SkillValue) -> (r: SkillArgs)
    ensures
        args_view(r) == one_arg(key@, value@),
{
    let mut m: SkillArgs = no_args();
    set_arg(&mut m, key.to_owned(), value);
    assert(!has_key(Seq::<(Seq<char>, ValueView)>::empty(), key@));
    assert(args_view(m) =~= one_arg(key@, value@));
    m
}

/// Tells the game that it was reached.
#[derive(Clone, Copy, Debug, Default)]
pub struct TraceAction;

/// The label of a trace.
pub open spec fn trace_label(args: ArgsView, n: NumbersView) -> Result<Seq<char>, QuestionView> {
    match arg_text(args, "label"@, n) {
        Ok(Some(s)) => Ok(s),
        Ok(None) => arg_text_or(args, "id"@, "trace"@, n),
        Err(q) => Err(q),
    }
}

impl SkillAction for TraceAction {
    open spec fn accepts(&self, args: ArgsView, known: ActionNamesView) -> Result<(), ErrorView> {
        Ok(())
    }

    open spec fn emits(
        &self,
        ctx: ContextView,
        input: InputView,
        out: ActionOutputView,
        n: NumbersView,
    ) -> Result<ActionOutputView, ErrorView> {
        match trace_label(input.args, n) {
            Ok(label) => intent_emitted(
                out,
                ctx,
                "trace"@,
                one_arg("label"@, ValueView::String(label)),
            ),
            Err(q) => Err(ErrorView::Unanswered(q)),
        }
    }

    open spec fn leaves(
        &self,
        ctx: ContextView,
        input: InputView,
        out: ActionOutputView,
        n: NumbersView,
    ) -> ActionOutputView {
        out
    }

    fn validate(&self, _args: &SkillArgs, _known: &SkillActionNames) -> (r: SkillResult) {
        Ok(())
    }

    fn emit(
        &self,
        ctx: &SkillContext,
        input: &SkillActionInput,
        out: &mut SkillActionOutput,
        numbers: &NumberTable,
    ) -> (r: SkillResult) {
        let label = match trace_arg(&input.args, "label", numbers) {
            Ok(Some(s)) => s,
            Ok(None) => match trace_arg_or(&input.args, "id", "trace", numbers) {
                Ok(s) => s,
                Err(e) => return Err(e),
            },
            Err(q) => return Err(SkillError::Unanswered(q)),
        };
        out.emit_intent(
            ctx,
            "trace".to_owned(),
            single_arg("label", SkillValue::String(label)),
        )
    }
}

/// Asks the game for a projectile.
#[derive(Clone, Copy, Debug, Default)]
pub struct SpawnProjectileAction;

impl SkillAction for SpawnProjectileAction {
    open spec fn accepts(&self, args: ArgsView, known: ActionNamesView) -> Result<(), ErrorView> {
        if !has_key(args, "payload"@) && !has_key(args, "prefab"@) {
            Err(invalid_text("spawn_projectile"@, "expected `prefab` or `payload`"@))
        } else {
            Ok(())
        }
    }

    open spec fn emits(
        &self,
        ctx: ContextView,
        input: InputView,
        out: ActionOutputView,
        n: NumbersView,
    ) -> Result<ActionOutputView, ErrorView> {
        match arg_text_or(input.args, "prefab"@, "projectile"@, n) {
            Ok(prefab) => intent_emitted(
                out,
                ctx,
                "spawn_projectile"@,
                put(input.args, "prefab"@, ValueView::String(prefab)),
            ),
            Err(q) => Err(ErrorView::Unanswered(q)),
        }
    }

    open spec fn leaves(
        &self,
        ctx: ContextView,
        input: InputView,
        out: ActionOutputView,
        n: NumbersView,
    ) -> ActionOutputView {
        out
    }

    fn validate(&self, args: &SkillArgs, _known: &SkillActionNames) -> (r: SkillResult) {
        if lacks(args, "payload") && lacks(args, "prefab") {
            return Err(
                SkillError::invalid_skill("spawn_projectile", "expected `prefab` or `payload`"),
            );
        }
        Ok(())
    }

    fn emit(
        &self,
        ctx: &SkillContext,
        input: &SkillActionInput,
        out: &mut SkillActionOutput,
        numbers: &NumberTable,
    ) -> (r: SkillResult) {
        let prefab = match trace_arg_or(&input.args, "prefab", "projectile", numbers) {
            Ok(s) => s,
            Err(e) => return Err(e),
        };
        let mut payload = copy_args(&input.args);
        set_arg(&mut payload, "prefab".to_owned(), SkillValue::String(prefab));
        out.emit_intent(ctx, "spawn_projectile".to_owned(), payload)
    }
}

/// Asks the game for damage.
#[derive(Clone, Copy, Debug, Default)]
pub struct DamageAction;

/// What has been asked for after damage to a target.
pub open spec fn damage_requested(
    o: ActionOutputView,
    ctx: ContextView,
    target: u64,
    amount: SkillNumber,
    mode: SettlementMode,
) -> ActionOutputView {
    let q = next_request(
        o,
        ctx,
        "damage"@,
        Some(target),
        one_arg("amount"@, ValueView::Number(amount)),
        mode,
    );
    let after = effect_requested(o, q);
    if mode is Sync {
        ActionOutputView {
            vars: put(after.vars, "last_damage_amount"@, ValueView::Number(amount)),
            ..after
        }
    } else {
        after
    }
}

impl SkillAction for DamageAction {
    open spec fn accepts(&self, args: ArgsView, known: ActionNamesView) -> Result<(), ErrorView> {
        if !has_key(args, "amount"@) {
            Err(invalid_text("damage"@, "expected `amount`"@))
        } else {
            Ok(())
        }
    }

    open spec fn emits(
        &self,
        ctx: ContextView,
        input: InputView,
        out: ActionOutputView,
        n: NumbersView,
    ) -> Result<ActionOutputView, ErrorView> {
        match arg_number(input.args, "amount"@, n) {
            Err(q) => Err(ErrorView::Unanswered(q)),
            Ok(found) => {
                let amount = match found {
                    Some(x) => x,
                    None => num_zero(),
                };
                match intent_emitted(
                    out,
                    ctx,
                    "damage"@,
                    with_default(input.args, "amount"@, "?"@),
                ) {
                    Err(e) => Err(e),
                    Ok(o) => match ctx.current_target {
                        None => Ok(o),
                        Some(target) => match mode_of(input.args, n) {
                            Err(e) => Err(e),
                            Ok(mode) => Ok(damage_requested(o, ctx, target, amount, mode)),
                        },
                    },
                }
            },
        }
    }

    open spec fn leaves(
        &self,
        ctx: ContextView,
        input: InputView,
        out: ActionOutputView,
        n: NumbersView,
    ) -> ActionOutputView {
        match arg_number(input.args, "amount"@, n) {
            Err(_) => out,
            Ok(_) => match intent_emitted(
                out,
                ctx,
                "damage"@,
                with_default(input.args, "amount"@, "?"@),
            ) {
                Err(_) => out,
                Ok(o) => o,
            },
        }
    }

    fn validate(&self, args: &SkillArgs, _known: &SkillActionNames) -> (r: SkillResult) {
        if lacks(args, "amount") {
            return Err(SkillError::invalid_skill("damage", "expected `amount`"));
        }
        Ok(())
    }

    fn emit(
        &self,
        ctx: &SkillContext,
        input: &SkillActionInput,
        out: &mut SkillActionOutput,
        numbers: &NumberTable,
    ) -> (r: SkillResult) {
        let amount = match number_arg(&input.args, "amount", numbers) {
            Ok(Some(x)) => x,
            Ok(None) => SkillNumber::zero(),
            Err(q) => return Err(SkillError::Unanswered(q)),
        };
        let mut payload = copy_args(&input.args);
        add_default(&mut payload, "amount", "?");
        match out.emit_intent(ctx, "damage".to_owned(), payload) {
            Ok(_) => {},
            Err(e) => return Err(e),
        }
        if let Some(target) = ctx.current_target {
            let mode = match settlement_mode(&input.args, numbers) {
                Ok(m) => m,
                Err(e) => return Err(e),
            };
            let effect_payload = single_arg("amount", SkillValue::Number(amount));
            match out.emit_effect_request(
                ctx,
                "damage".to_owned(),
                Some(target),
                effect_payload,
                mode,
            ) {
                Ok(_) => {},
                Err(e) => return Err(e),
            }
            if let SettlementMode::Sync = mode {
                out.set_var("last_damage_amount".to_owned(), SkillValue::Number(amount));
            }
        }
        Ok(())
    }
}

/// Asks the game for a buff that may last for a while.
#[derive(Clone, Copy, Debug, Default)]
pub struct ApplyBuffAction;

/// The payload of a buff.
pub open spec fn buff_payload(buff: Seq<char>, duration: Option<SkillNumber>) -> ArgsView {
    match duration {
        None => one_arg("buff"@, ValueView::String(buff)),
        Some(x) => put(
            one_arg("buff"@, ValueView::String(buff)),
            "duration"@,
            ValueView::Number(x),
        ),
    }
}

/// What has been asked for after a buff on a target.
pub open spec fn buff_requested(
    o: ActionOutputView,
    ctx: ContextView,
    input: InputView,
    target: u64,
    buff: Seq<char>,
    duration: Option<SkillNumber>,
) -> ActionOutputView {
    let q = next_request(
        o,
        ctx,
        "apply_buff"@,
        Some(target),
        buff_payload(buff, duration),
        SettlementMode::Request,
    );
    ActionOutputView {
        effect_requests: o.effect_requests.push(q),
        effects: o.effects.push(
            SpawnView {
                request: q,
                duration_seconds: duration,
                on_add: first_entity(entities_under(input.payloads, "on_add"@)),
                on_remove: first_entity(entities_under(input.payloads, "on_remove"@)),
                ctx,
            },
        ),
        ..o
    }
}

impl SkillAction for ApplyBuffAction {
    open spec fn accepts(&self, args: ArgsView, known: ActionNamesView) -> Result<(), ErrorView> {
        if !has_key(args, "buff"@) {
            Err(invalid_text("apply_buff"@, "expected `buff`"@))
        } else {
            Ok(())
        }
    }

    open spec fn emits(
        &self,
        ctx: ContextView,
        input: InputView,
        out: ActionOutputView,
        n: NumbersView,
    ) -> Result<ActionOutputView, ErrorView> {
        match arg_text_or(input.args, "buff"@, "buff"@, n) {
            Err(q) => Err(ErrorView::Unanswered(q)),
            Ok(buff) => match arg_number(input.args, "duration"@, n) {
                Err(q) => Err(ErrorView::Unanswered(q)),
                Ok(duration) => match intent_emitted(
                    out,
                    ctx,
                    "apply_buff"@,
                    with_default(input.args, "buff"@, buff),
                ) {
                    Err(e) => Err(e),
                    Ok(o) => match ctx.current_target {
                        None => Ok(o),
                        Some(target) => Ok(buff_requested(o, ctx, input, target, buff, duration)),
                    },
                },
            },
        }
    }

    open spec fn leaves(
        &self,
        ctx: ContextView,
        input: InputView,
        out: ActionOutputView,
        n: NumbersView,
    ) -> ActionOutputView {
        out
    }

    fn validate(&self, args: &SkillArgs, _known: &SkillActionNames) -> (r: SkillResult) {
        if lacks(args, "buff") {
            return Err(SkillError::invalid_skill("apply_buff", "expected `buff`"));
        }
        Ok(())
    }

    fn emit(
        &self,
        ctx: &SkillContext,
        input: &SkillActionInput,
        out: &mut SkillActionOutput,
        numbers: &NumberTable,
    ) -> (r: SkillResult) {
        let buff = match trace_arg_or(&input.args, "buff", "buff", numbers) {
            Ok(s) => s,
            Err(e) => return Err(e),
        };
        let duration = match number_arg(&input.args, "duration", numbers) {
            Ok(d) => d,
            Err(q) => return Err(SkillError::Unanswered(q)),
        };
        let mut payload = copy_args(&input.args);
        add_default(&mut payload, "buff", buff.as_str());
        match out.emit_intent(ctx, "apply_buff".to_owned(), payload) {
            Ok(_) => {},
            Err(e) => return Err(e),
        }
        if let Some(target) = ctx.current_target {
            let mut effect_payload = single_arg("buff", SkillValue::String(buff));
            if let Some(x) = duration {
                set_arg(&mut effect_payload, "duration".to_owned(), SkillValue::Number(x));
            }
            match out.emit_timed_effect(
                ctx,
                "apply_buff".to_owned(),
                Some(target),
                effect_payload,
                duration,
                input.payload("on_add"),
                input.payload("on_remove"),
            ) {
                Ok(_) => {},
                Err(e) => return Err(e),
            }
        }
        Ok(())
    }
}

/// Asks the game for a spell.
#[derive(Clone, Copy, Debug, Default)]
pub struct SpellAction;

impl SkillAction for SpellAction {
    open spec fn accepts(&self, args: ArgsView, known: ActionNamesView) -> Result<(), ErrorView> {
        if !has_key(args, "id"@) {
            Err(invalid_text("spell"@, "expected `id`"@))
        } else {
            Ok(())
        }
    }

    open spec fn emits(
        &self,
        ctx: ContextView,
        input: InputView,
        out: ActionOutputView,
        n: NumbersView,
    ) -> Result<ActionOutputView, ErrorView> {
        intent_emitted(
            out,
            ctx,
            "spell"@,
            with_default(
                with_default(input.args, "id"@, "spell"@),
                "damage_bonus"@,
                "0"@,
            ),
        )
    }

    open spec fn leaves(
        &self,
        ctx: ContextView,
        input: InputView,
        out: ActionOutputView,
        n: NumbersView,
    ) -> ActionOutputView {
        out
    }

    fn validate(&self, args: &SkillArgs, _known: &SkillActionNames) -> (r: SkillResult) {
        if lacks(args, "id") {
            return Err(SkillError::invalid_skill("spell", "expected `id`"));
        }
        Ok(())
    }

    fn emit(
        &self,
        ctx: &SkillContext,
        input: &SkillActionInput,
        out: &mut SkillActionOutput,
        _numbers: &NumberTable,
    ) -> (r: SkillResult) {
        let mut payload = copy_args(&input.args);
        add_default(&mut payload, "id", "spell");
        add_default(&mut payload, "damage_bonus", "0");
        out.emit_intent(ctx, "spell".to_owned(), payload)
    }
}

/// The action that a spell card becomes.
pub open spec fn spell_node(id: Seq<char>, args: ArgsView, bonus: SkillNumber) -> NodeView {
    let base = put(
        one_arg("id"@, ValueView::String(id)),
        "damage_bonus"@,
        ValueView::Number(bonus),
    );
    NodeView::Action("spell"@, all_put(base, args, args.len()))
}

/// The action that a spell card becomes.
pub fn spell_action(id: &String, args: &SkillArgs, damage_bonus: SkillNumber) -> (r: SkillNode)
    ensures
        r@ == spell_node(id@, args_view(*args), damage_bonus),
{
    let mut action_args = single_arg("id", SkillValue::String(id.clone()));
    set_arg(&mut action_args, "damage_bonus".to_owned(), SkillValue::Number(damage_bonus));
    let ghost base = args_view(action_args);
    let n: usize = args.len();
    let mut i: usize = 0;
    while i < n
        invariant
            i <= n,
            n == args@.len(),
            args_view(action_args) == all_put(base, args_view(*args), i as nat),
        decreases n - i,
    {
        set_arg(&mut action_args, args.key(i).clone(), copy_value(args.value(i)));
        i = i + 1;
        assert(args_view(*args)[i - 1] == (args@[i - 1].0, args@[i - 1].1@));
    }
    SkillNode::Action("spell".to_owned(), action_args)
}

/// Plays a deck of cards: modifiers change the spells behind them.
#[derive(Clone, Copy, Debug, Default)]
pub struct WandDeckCastModel;

/// The actions of the cards from the `k`-th on, behind those so far. A bonus adds up over the
/// cards; a double cast takes the next spell along with the one it meets.
pub open spec fn deck_played(
    cards: Seq<NodeView>,
    k: int,
    bonus: SkillNumber,
    double: bool,
    so_far: Seq<NodeView>,
    id: Seq<char>,
    n: NumbersView,
) -> Result<Seq<NodeView>, ErrorView>
    decreases cards.len() - k,
{
    if 0 <= k < cards.len() {
        match cards[k] {
            NodeView::Modifier(name, args) => if name == "damage_plus"@ {
                match lookup(args, "amount"@) {
                    Some(ValueView::Number(x)) => match ask_result(n, NumberOp::Add, bonus, x) {
                        Ok(sum) => deck_played(cards, k + 1, sum, double, so_far, id, n),
                        Err(q) => Err(ErrorView::Unanswered(q)),
                    },
                    _ => deck_played(cards, k + 1, bonus, double, so_far, id, n),
                }
            } else if name == "double_cast"@ {
                deck_played(cards, k + 1, bonus, true, so_far, id, n)
            } else {
                Err(ErrorView::InvalidSkill(id, MessageView::UnsupportedCard(cards[k])))
            },
            NodeView::Spell(spell, args) => {
                let first = so_far.push(spell_node(spell, args, bonus));
                if double && k + 1 < cards.len() && cards[k + 1] is Spell {
                    deck_played(
                        cards,
                        k + 2,
                        bonus,
                        false,
                        first.push(
                            spell_node(cards[k + 1]->Spell_0, cards[k + 1]->Spell_1, bonus),
                        ),
                        id,
                        n,
                    )
                } else {
                    deck_played(cards, k + 1, bonus, false, first, id, n)
                }
            },
            _ => Err(ErrorView::InvalidSkill(id, MessageView::UnsupportedCard(cards[k]))),
        }
    } else {
        Ok(so_far)
    }
}

impl CastModel for WandDeckCastModel {
    open spec fn casts(&self, skill: DefView, known: NamesView, n: NumbersView) -> Result<
        NodeView,
        ErrorView,
    > {
        match skill.body {
            NodeView::Deck(cards) => match deck_played(
                cards,
                0,
                num_zero(),
                false,
                Seq::empty(),
                skill.id,
                n,
            ) {
                Ok(actions) => Ok(NodeView::Sequence(actions)),
                Err(e) => Err(e),
            },
            _ => Err(
                invalid_text(skill.id, "wand_deck cast model expects a Deck([...]) body"@),
            ),
        }
    }

    fn compile(&self, skill: &SkillDef, _known: &SkillRegistryNames, numbers: &NumberTable) -> (r:
        Result<SkillNode, SkillError>) {
        let cards = match &skill.body {
            SkillNode::Deck(cards) => cards,
            _ => return Err(
                SkillError::invalid_skill(
                    skill.id.0.as_str(),
                    "wand_deck cast model expects a Deck([...]) body",
                ),
            ),
        };
        let ghost all = nodes_view(cards@);
        let mut actions: Vec<SkillNode> = Vec::new();
        let mut damage_bonus = SkillNumber::zero();
        let mut double_cast: bool = false;
        assert(nodes_view(actions@) =~= Seq::empty());
        let n: usize = cards.len();
        let mut index: usize = 0;
        while index < n
            invariant
                index <= n,
                n == cards@.len(),
                all == nodes_view(cards@),
                deck_played(all, 0, num_zero(), false, Seq::empty(), skill@.id, numbers@)
                    == deck_played(
                    all,
                    index as int,
                    damage_bonus,
                    double_cast,
                    nodes_view(actions@),
                    skill@.id,
                    numbers@,
                ),
                skill@.body == NodeView::Deck(all),
            decreases n - index,
        {
            assert(all[index as int] == cards@[index as int]@);
            match &cards[index] {
                SkillNode::Modifier(id, args) => {
                    if same_text(id.as_str(), "damage_plus") {
                        if let Some(SkillValue::Number(x)) = arg(args, "amount") {
                            damage_bonus =
                            match numbers.result(NumberOp::Add, damage_bonus, *x) {
                                Ok(sum) => sum,
                                Err(q) => return Err(SkillError::Unanswered(q)),
                            };
                        }
                    } else if same_text(id.as_str(), "double_cast") {
                        double_cast = true;
                    } else {
                        return Err(
                            SkillError::InvalidSkill(
                                skill.id.0.clone(),
                                SkillMessage::UnsupportedCard(copy_node(&cards[index])),
                            ),
                        );
                    }
                    index = index + 1;
                },
                SkillNode::Spell(id, args) => {
                    let ghost before = actions@;
                    let first = spell_action(id, args, damage_bonus);
                    actions.push(first);
                    assert(nodes_view(actions@) =~= nodes_view(before).push(first@));
                    if double_cast {
                        if index + 1 < n {
                            assert(all[index + 1] == cards@[index + 1]@);
                            if let SkillNode::Spell(next_id, next_args) = &cards[index + 1] {
                                let ghost so_far = actions@;
                                let second = spell_action(next_id, next_args, damage_bonus);
                                actions.push(second);
                                assert(nodes_view(actions@) =~= nodes_view(so_far).push(second@));
                                index = index + 1;
                            }
                        }
                        double_cast = false;
                    }
                    index = index + 1;
                },
                other => {
                    return Err(
                        SkillError::InvalidSkill(
                            skill.id.0.clone(),
                            SkillMessage::UnsupportedCard(copy_node(other)),
                        ),
                    );
                },
            }
        }
        Ok(SkillNode::Sequence(actions))
    }
}

/// A projectile has hit something.
#[derive(Debug)]
pub struct ProjectileHit {
    pub execution_id: u64,
    pub projectile: u64,
    /// The name under which skills see the projectile.
    pub projectile_name: String,
    pub target: Option<u64>,
    pub position: Option<[SkillNumber; 3]>,
}

/// What skills learn of a hit.
pub open spec fn hit_payload(hit: ProjectileHit) -> ArgsView {
    let named = one_arg("projectile"@, ValueView::String(hit.projectile_name@));
    match hit.position {
        None => named,
        Some(p) => put(
            named,
            "position"@,
            ValueView::List(
                seq![
                    ValueView::Number(p[0]),
                    ValueView::Number(p[1]),
                    ValueView::Number(p[2]),
                ],
            ),
        ),
    }
}

/// The signal of a hit under a name.
pub open spec fn hit_signal(hit: ProjectileHit, name: Seq<char>) -> SignalView {
    SignalView {
        name,
        payload: hit_payload(hit),
        execution_id: Some(hit.execution_id),
        skill_entity: None,
        caster: None,
        target: hit.target,
    }
}

/// The signals that a hit raises.
pub fn projectile_hit_signal_bridge(hit: &ProjectileHit) -> (r: Vec<SkillRuntimeSignal>)
    ensures
        signals_view(r@) == seq![hit_signal(*hit, "hit"@), hit_signal(*hit, "projectile_hit"@)],
{
    let mut payload = single_arg("projectile", SkillValue::String(hit.projectile_name.clone()));
    if let Some(p) = &hit.position {
        let mut place: Vec<SkillValue> = Vec::new();
        place.push(SkillValue::Number(p[0]));
        place.push(SkillValue::Number(p[1]));
        place.push(SkillValue::Number(p[2]));
        assert(crate::value::list_view(place@) =~= seq![
            ValueView::Number(p[0]),
            ValueView::Number(p[1]),
            ValueView::Number(p[2]),
        ]);
        set_arg(&mut payload, "position".to_owned(), SkillValue::List(place));
    }
    let first = SkillRuntimeSignal {
        name: "hit".to_owned(),
        payload: copy_args(&payload),
        execution_id: Some(hit.execution_id),
        skill_entity: None,
        caster: None,
        target: hit.target,
    };
    let second = SkillRuntimeSignal {
        name: "projectile_hit".to_owned(),
        payload,
        execution_id: Some(hit.execution_id),
        skill_entity: None,
        caster: None,
        target: hit.target,
    };
    let mut out: Vec<SkillRuntimeSignal> = Vec::new();
    out.push(first);
    out.push(second);
    assert(signals_view(out@) =~= seq![
        hit_signal(*hit, "hit"@),
        hit_signal(*hit, "projectile_hit"@),
    ]);
    out
}

/// The slot does what the action does.
pub open spec fn does<A: SkillAction>(slot: ActionSlot, action: A) -> bool {
    &&& forall|args: ArgsView, known: ActionNamesView| #[trigger]
        slot.accepts(args, known) == action.accepts(args, known)
    &&& forall|ctx: ContextView, input: InputView, out: ActionOutputView, n: NumbersView| #[trigger]
        slot.emits(ctx, input, out, n) == action.emits(ctx, input, out, n)
    &&& forall|ctx: ContextView, input: InputView, out: ActionOutputView, n: NumbersView| #[trigger]
        slot.leaves(ctx, input, out, n) == action.leaves(ctx, input, out, n)
}

/// A registry with the vocabulary of this module.
pub open spec fn with_gameplay(
    r: RegistryView,
    trace: ActionSlot,
    projectile: ActionSlot,
    damage: ActionSlot,
    buff: ActionSlot,
    spell: ActionSlot,
    deck: CastModelSlot,
) -> RegistryView {
    RegistryView {
        actions: put(
            put(
                put(
                    put(
                        put(r.actions, "trace"@, trace),
                        "spawn_projectile"@,
                        projectile,
                    ),
                    "damage"@,
                    damage,
                ),
                "apply_buff"@,
                buff,
            ),
            "spell"@,
            spell,
        ),
        cast_models: put(r.cast_models, "wand_deck"@, deck),
        ..r
    }
}

/// The slots do what the vocabulary of this module says.
pub open spec fn is_gameplay(
    trace: ActionSlot,
    projectile: ActionSlot,
    damage: ActionSlot,
    buff: ActionSlot,
    spell: ActionSlot,
    deck: CastModelSlot,
) -> bool {
    &&& does(trace, TraceAction)
    &&& does(projectile, SpawnProjectileAction)
    &&& does(damage, DamageAction)
    &&& does(buff, ApplyBuffAction)
    &&& does(spell, SpellAction)
    &&& forall|skill: DefView, known: NamesView, n: NumbersView| #[trigger]
        deck.casts(skill, known, n) == WandDeckCastModel.casts(skill, known, n)
}

/// Registers the vocabulary of this module.
pub fn register_gameplay_primitives(registry: &mut SkillRegistry)
    ensures
        exists|
            trace: ActionSlot,
            projectile: ActionSlot,
            damage: ActionSlot,
            buff: ActionSlot,
            spell: ActionSlot,
            deck: CastModelSlot,
        | #[trigger]
            is_gameplay(trace, projectile, damage, buff, spell, deck) && final(registry)@
                == with_gameplay(old(registry)@, trace, projectile, damage, buff, spell, deck),
{
    let trace = ActionSlot::new(Box::new(TraceAction));
    let projectile = ActionSlot::new(Box::new(SpawnProjectileAction));
    let damage = ActionSlot::new(Box::new(DamageAction));
    let buff = ActionSlot::new(Box::new(ApplyBuffAction));
    let spell = ActionSlot::new(Box::new(SpellAction));
    let deck = CastModelSlot::new(Box::new(WandDeckCastModel));
    assert(is_gameplay(trace, projectile, damage, buff, spell, deck));
    registry.register_skill_action("trace".to_owned(), trace);
    registry.register_skill_action("spawn_projectile".to_owned(), projectile);
    registry.register_skill_action("damage".to_owned(), damage);
    registry.register_skill_action("apply_buff".to_owned(), buff);
    registry.register_skill_action("spell".to_owned(), spell);
    registry.register_cast_model("wand_deck".to_owned(), deck);
}

} // verus!
