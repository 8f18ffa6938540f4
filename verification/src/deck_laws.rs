//! What a deck of cards becomes.
use crate::def::DefView;
use crate::error::{ErrorView, MessageView};
use crate::execute::all_put;
use crate::gameplay::{deck_played, one_arg, spell_node, WandDeckCastModel};
use crate::number::{ask_result, num_zero, NumberOp, NumbersView, SkillNumber};
use crate::registry::{CastModel, NamesView};
use crate::table::{
    distinct, has_key, key_index, law_put_then_lookup, lemma_distinct, lemma_found, lookup, put,
};
use crate::value::{ArgsView, NodeView, ValueView};
use vstd::prelude::*;

verus! {

/// A card that doubles the next cast.
pub open spec fn is_double(card: NodeView) -> bool {
    card matches NodeView::Modifier(name, _) && name == "double_cast"@
}

/// How much a card adds to the damage of the spells behind it, if it does.
pub open spec fn bonus_of(card: NodeView) -> Option<SkillNumber> {
    match card {
        NodeView::Modifier(name, args) => if name == "damage_plus"@ {
            match lookup(args, "amount"@) {
                Some(ValueView::Number(x)) => Some(x),
                _ => None,
            }
        } else {
            None
        },
        _ => None,
    }
}

/// The sum of what the first `k` cards add.
pub open spec fn bonus_before(cards: Seq<NodeView>, k: int, n: NumbersView) -> SkillNumber
    decreases k,
{
    if 0 < k <= cards.len() {
        let before = bonus_before(cards, k - 1, n);
        match bonus_of(cards[k - 1]) {
            Some(x) => ask_result(n, NumberOp::Add, before, x)->Ok_0,
            None => before,
        }
    } else {
        num_zero()
    }
}

/// How many of the first `k` cards are spells.
pub open spec fn spells_before(cards: Seq<NodeView>, k: int) -> int
    decreases k,
{
    if 0 < k <= cards.len() {
        spells_before(cards, k - 1) + if cards[k - 1] is Spell {
            1int
        } else {
            0int
        }
    } else {
        0
    }
}

/// The cards from the `k`-th on that double no cast.
pub open spec fn without_doubles(cards: Seq<NodeView>, k: int) -> Seq<NodeView>
    decreases cards.len() - k,
{
    if 0 <= k < cards.len() {
        let rest = without_doubles(cards, k + 1);
        if is_double(cards[k]) {
            rest
        } else {
            seq![cards[k]] + rest
        }
    } else {
        Seq::empty()
    }
}

/// The actions of the cards from the `k`-th on, one card after another.
spec fn singly_played(
    cards: Seq<NodeView>,
    k: int,
    bonus: SkillNumber,
    so_far: Seq<NodeView>,
    id: Seq<char>,
    n: NumbersView,
) -> Result<Seq<NodeView>, ErrorView>
    decreases cards.len() - k,
{
    if 0 <= k < cards.len() {
        match cards[k] {
            NodeView::Modifier(name, _) => if name == "damage_plus"@ {
                match bonus_of(cards[k]) {
                    Some(x) => match ask_result(n, NumberOp::Add, bonus, x) {
                        Ok(sum) => singly_played(cards, k + 1, sum, so_far, id, n),
                        Err(q) => Err(ErrorView::Unanswered(q)),
                    },
                    None => singly_played(cards, k + 1, bonus, so_far, id, n),
                }
            } else if name == "double_cast"@ {
                singly_played(cards, k + 1, bonus, so_far, id, n)
            } else {
                Err(ErrorView::InvalidSkill(id, MessageView::UnsupportedCard(cards[k])))
            },
            NodeView::Spell(spell, args) => singly_played(
                cards,
                k + 1,
                bonus,
                so_far.push(spell_node(spell, args, bonus)),
                id,
                n,
            ),
            _ => Err(ErrorView::InvalidSkill(id, MessageView::UnsupportedCard(cards[k]))),
        }
    } else {
        Ok(so_far)
    }
}

proof fn lemma_singly(
    cards: Seq<NodeView>,
    k: int,
    bonus: SkillNumber,
    double: bool,
    so_far: Seq<NodeView>,
    id: Seq<char>,
    n: NumbersView,
)
    requires
        0 <= k,
    ensures
        deck_played(cards, k, bonus, double, so_far, id, n) == singly_played(
            cards,
            k,
            bonus,
            so_far,
            id,
            n,
        ),
    decreases cards.len() - k,
{
    if k < cards.len() {
        match cards[k] {
            NodeView::Modifier(name, args) => {
                if name == "damage_plus"@ {
                    match bonus_of(cards[k]) {
                        Some(x) => match ask_result(n, NumberOp::Add, bonus, x) {
                            Ok(sum) => {
                                lemma_singly(cards, k + 1, sum, double, so_far, id, n);
                            },
                            Err(_) => {},
                        },
                        None => {
                            lemma_singly(cards, k + 1, bonus, double, so_far, id, n);
                        },
                    }
                } else if name == "double_cast"@ {
                    lemma_singly(cards, k + 1, bonus, true, so_far, id, n);
                }
            },
            NodeView::Spell(spell, args) => {
                let first = so_far.push(spell_node(spell, args, bonus));
                if double && k + 1 < cards.len() && cards[k + 1] is Spell {
                    let second = first.push(
                        spell_node(cards[k + 1]->Spell_0, cards[k + 1]->Spell_1, bonus),
                    );
                    lemma_singly(cards, k + 2, bonus, false, second, id, n);
                    assert(singly_played(cards, k + 1, bonus, first, id, n) == singly_played(
                        cards,
                        k + 2,
                        bonus,
                        second,
                        id,
                        n,
                    ));
                } else {
                    lemma_singly(cards, k + 1, bonus, false, first, id, n);
                }
            },
            _ => {},
        }
    }
}

/// Decks that are alike from some places on are played alike from there.
proof fn lemma_alike_behind(
    a: Seq<NodeView>,
    i: int,
    b: Seq<NodeView>,
    j: int,
    bonus: SkillNumber,
    so_far: Seq<NodeView>,
    id: Seq<char>,
    n: NumbersView,
)
    requires
        0 <= i <= a.len(),
        0 <= j <= b.len(),
        a.subrange(i, a.len() as int) == b.subrange(j, b.len() as int),
    ensures
        singly_played(a, i, bonus, so_far, id, n) == singly_played(b, j, bonus, so_far, id, n),
    decreases a.len() - i,
{
    let (s, t) = (a.subrange(i, a.len() as int), b.subrange(j, b.len() as int));
    assert(s.len() == t.len());
    if i < a.len() {
        assert(s[0] == a[i] && t[0] == b[j]);
        assert(a.subrange(i + 1, a.len() as int) =~= s.subrange(1, s.len() as int));
        assert(b.subrange(j + 1, b.len() as int) =~= t.subrange(1, t.len() as int));
        match a[i] {
            NodeView::Spell(spell, args) => {
                lemma_alike_behind(
                    a,
                    i + 1,
                    b,
                    j + 1,
                    bonus,
                    so_far.push(spell_node(spell, args, bonus)),
                    id,
                    n,
                );
            },
            _ => {
                lemma_alike_behind(a, i + 1, b, j + 1, bonus, so_far, id, n);
                if let Some(x) = bonus_of(a[i]) {
                    if let Ok(sum) = ask_result(n, NumberOp::Add, bonus, x) {
                        lemma_alike_behind(a, i + 1, b, j + 1, sum, so_far, id, n);
                    }
                }
            },
        }
    }
}

proof fn lemma_doubles_dropped(
    cards: Seq<NodeView>,
    k: int,
    bonus: SkillNumber,
    so_far: Seq<NodeView>,
    id: Seq<char>,
    n: NumbersView,
)
    requires
        0 <= k <= cards.len(),
    ensures
        singly_played(without_doubles(cards, k), 0, bonus, so_far, id, n) == singly_played(
            cards,
            k,
            bonus,
            so_far,
            id,
            n,
        ),
    decreases cards.len() - k,
{
    if k < cards.len() {
        let rest = without_doubles(cards, k + 1);
        if is_double(cards[k]) {
            assert("double_cast"@ != "damage_plus"@) by {
                reveal_strlit("double_cast");
                reveal_strlit("damage_plus");
                assert("double_cast"@[1] != "damage_plus"@[1]);
            }
            lemma_doubles_dropped(cards, k + 1, bonus, so_far, id, n);
        } else {
            let kept = without_doubles(cards, k);
            assert(kept[0] == cards[k]);
            assert(kept.subrange(1, kept.len() as int) =~= rest);
            assert(rest.subrange(0, rest.len() as int) =~= rest);
            match cards[k] {
                NodeView::Spell(spell, args) => {
                    let first = so_far.push(spell_node(spell, args, bonus));
                    lemma_alike_behind(kept, 1, rest, 0, bonus, first, id, n);
                    lemma_doubles_dropped(cards, k + 1, bonus, first, id, n);
                },
                _ => {
                    lemma_alike_behind(kept, 1, rest, 0, bonus, so_far, id, n);
                    lemma_doubles_dropped(cards, k + 1, bonus, so_far, id, n);
                    if let Some(x) = bonus_of(cards[k]) {
                        if let Ok(sum) = ask_result(n, NumberOp::Add, bonus, x) {
                            lemma_alike_behind(kept, 1, rest, 0, sum, so_far, id, n);
                            lemma_doubles_dropped(cards, k + 1, sum, so_far, id, n);
                        }
                    }
                },
            }
        }
    }
}

/// A law of decks: cards that double a cast change nothing in what a deck becomes.
pub proof fn law_doubles_change_nothing(
    skill: DefView,
    cards: Seq<NodeView>,
    known: NamesView,
    n: NumbersView,
)
    requires
        skill.body == NodeView::Deck(cards),
    ensures
        WandDeckCastModel.casts(skill, known, n) == WandDeckCastModel.casts(
            DefView { body: NodeView::Deck(without_doubles(cards, 0)), ..skill },
            known,
            n,
        ),
{
    lemma_singly(cards, 0, num_zero(), false, Seq::empty(), skill.id, n);
    lemma_singly(
        without_doubles(cards, 0),
        0,
        num_zero(),
        false,
        Seq::empty(),
        skill.id,
        n,
    );
    lemma_doubles_dropped(cards, 0, num_zero(), Seq::empty(), skill.id, n);
}

/// The actions so far are those of the spells among the first `k` cards.
spec fn spells_played(cards: Seq<NodeView>, k: int, s: Seq<NodeView>, n: NumbersView) -> bool {
    &&& s.len() == spells_before(cards, k)
    &&& forall|i: int|
        0 <= i < k && cards[i] is Spell ==> 0 <= spells_before(cards, i) < s.len() && s[
            spells_before(cards, i)
        ] == spell_node(
            (#[trigger] cards[i])->Spell_0,
            cards[i]->Spell_1,
            bonus_before(cards, i, n),
        )
}

proof fn lemma_spells_played(
    cards: Seq<NodeView>,
    k: int,
    so_far: Seq<NodeView>,
    id: Seq<char>,
    n: NumbersView,
)
    requires
        0 <= k <= cards.len(),
        spells_played(cards, k, so_far, n),
        singly_played(cards, k, bonus_before(cards, k, n), so_far, id, n) is Ok,
    ensures
        spells_played(
            cards,
            cards.len() as int,
            singly_played(cards, k, bonus_before(cards, k, n), so_far, id, n)->Ok_0,
            n,
        ),
    decreases cards.len() - k,
{
    if k < cards.len() {
        let bonus = bonus_before(cards, k, n);
        match cards[k] {
            NodeView::Spell(spell, args) => {
                lemma_spells_played(
                    cards,
                    k + 1,
                    so_far.push(spell_node(spell, args, bonus)),
                    id,
                    n,
                );
            },
            _ => {
                lemma_spells_played(cards, k + 1, so_far, id, n);
            },
        }
    }
}

/// A law of decks: a deck becomes a sequence of one action for each spell card, in the order of the
/// cards, with the bonus of the cards before it.
pub proof fn law_one_action_per_spell(
    skill: DefView,
    cards: Seq<NodeView>,
    known: NamesView,
    n: NumbersView,
)
    requires
        skill.body == NodeView::Deck(cards),
        WandDeckCastModel.casts(skill, known, n) is Ok,
    ensures
        WandDeckCastModel.casts(skill, known, n)->Ok_0 matches NodeView::Sequence(s) && s.len()
            == spells_before(cards, cards.len() as int) && forall|i: int|
            0 <= i < cards.len() && cards[i] is Spell ==> 0 <= spells_before(cards, i) < s.len()
                && s[spells_before(cards, i)] == spell_node(
                (#[trigger] cards[i])->Spell_0,
                cards[i]->Spell_1,
                bonus_before(cards, i, n),
            ),
{
    lemma_singly(cards, 0, num_zero(), false, Seq::empty(), skill.id, n);
    lemma_spells_played(cards, 0, Seq::empty(), skill.id, n);
}

/// After some arguments were put, those that were not named are as before.
proof fn lemma_all_put(vars: ArgsView, t: ArgsView, k: nat, key: Seq<char>)
    requires
        distinct(vars),
        distinct(t),
        k <= t.len(),
    ensures
        distinct(all_put(vars, t, k)),
        lookup(all_put(vars, t, k), key) == if has_key(t, key) && key_index(t, key) < k {
            lookup(t, key)
        } else {
            lookup(vars, key)
        },
    decreases k,
{
    if k > 0 {
        let before = all_put(vars, t, (k - 1) as nat);
        lemma_all_put(vars, t, (k - 1) as nat, key);
        lemma_distinct(before, t[k - 1].0, t[k - 1].1);
        law_put_then_lookup(before, t[k - 1].0, t[k - 1].1, key);
        lemma_found(t, k - 1);
        if has_key(t, key) {
            let i = key_index(t, key);
            assert(0 <= i < t.len() && t[i].0 == key);
        }
    } else if has_key(t, key) {
        let i = key_index(t, key);
        assert(0 <= i < t.len() && t[i].0 == key);
    }
}

/// A law of decks: a spell card becomes a `spell` action with the arguments of the card; where the
/// card does not set them itself, `id` is the name of the spell and `damage_bonus` the bonus.
pub proof fn law_spell_actions(id: Seq<char>, args: ArgsView, bonus: SkillNumber, key: Seq<char>)
    requires
        distinct(args),
    ensures
        spell_node(id, args, bonus) matches NodeView::Action(name, given) && name == "spell"@
            && lookup(given, key) == if has_key(args, key) {
            lookup(args, key)
        } else if key == "id"@ {
            Some(ValueView::String(id))
        } else if key == "damage_bonus"@ {
            Some(ValueView::Number(bonus))
        } else {
            None
        },
{
    let one = one_arg("id"@, ValueView::String(id));
    let base = put(one, "damage_bonus"@, ValueView::Number(bonus));
    assert("id"@ != "damage_bonus"@) by {
        reveal_strlit("id");
        reveal_strlit("damage_bonus");
        assert("id"@.len() != "damage_bonus"@.len());
    }
    assert(one[0] == ("id"@, ValueView::String(id)));
    lemma_found(one, 0);
    lemma_distinct(one, "damage_bonus"@, ValueView::Number(bonus));
    law_put_then_lookup(one, "damage_bonus"@, ValueView::Number(bonus), key);
    lemma_all_put(base, args, args.len(), key);
    if has_key(args, key) {
        let i = key_index(args, key);
        assert(0 <= i < args.len() && args[i].0 == key);
    }
    if key != "id"@ {
        assert(!has_key(one, key));
    }
}

/// A card that a deck can hold: a spell, or one that changes the spells behind it.
pub open spec fn is_card(card: NodeView) -> bool {
    match card {
        NodeView::Spell(_, _) => true,
        NodeView::Modifier(name, _) => name == "damage_plus"@ || name == "double_cast"@,
        _ => false,
    }
}

proof fn lemma_bad_card(
    cards: Seq<NodeView>,
    k: int,
    bonus: SkillNumber,
    double: bool,
    so_far: Seq<NodeView>,
    id: Seq<char>,
    n: NumbersView,
    i: int,
)
    requires
        0 <= k <= i < cards.len(),
        !is_card(cards[i]),
        forall|j: int| k <= j < i ==> is_card(#[trigger] cards[j]),
    ensures
        ({
            let r = deck_played(cards, k, bonus, double, so_far, id, n);
            r matches Err(e) && (e is Unanswered || e == ErrorView::InvalidSkill(
                id,
                MessageView::UnsupportedCard(cards[i]),
            ))
        }),
    decreases i - k,
{
    if k < i {
        assert(is_card(cards[k]));
        match cards[k] {
            NodeView::Modifier(name, args) => {
                lemma_bad_card(cards, k + 1, bonus, double, so_far, id, n, i);
                lemma_bad_card(cards, k + 1, bonus, true, so_far, id, n, i);
                if let Some(ValueView::Number(x)) = lookup(args, "amount"@) {
                    if let Ok(sum) = ask_result(n, NumberOp::Add, bonus, x) {
                        lemma_bad_card(cards, k + 1, sum, double, so_far, id, n, i);
                    }
                }
            },
            NodeView::Spell(spell, args) => {
                let first = so_far.push(spell_node(spell, args, bonus));
                lemma_bad_card(cards, k + 1, bonus, false, first, id, n, i);
                if k + 1 < i && cards[k + 1] is Spell {
                    lemma_bad_card(
                        cards,
                        k + 2,
                        bonus,
                        false,
                        first.push(
                            spell_node(cards[k + 1]->Spell_0, cards[k + 1]->Spell_1, bonus),
                        ),
                        id,
                        n,
                        i,
                    );
                }
            },
            _ => {},
        }
    }
}

proof fn lemma_good_cards(
    cards: Seq<NodeView>,
    k: int,
    bonus: SkillNumber,
    double: bool,
    so_far: Seq<NodeView>,
    id: Seq<char>,
    n: NumbersView,
)
    requires
        0 <= k <= cards.len(),
        forall|j: int| k <= j < cards.len() ==> is_card(#[trigger] cards[j]),
    ensures
        ({
            let r = deck_played(cards, k, bonus, double, so_far, id, n);
            r is Ok || r->Err_0 is Unanswered
        }),
    decreases cards.len() - k,
{
    if k < cards.len() {
        assert(is_card(cards[k]));
        match cards[k] {
            NodeView::Modifier(name, args) => {
                lemma_good_cards(cards, k + 1, bonus, double, so_far, id, n);
                lemma_good_cards(cards, k + 1, bonus, true, so_far, id, n);
                if let Some(ValueView::Number(x)) = lookup(args, "amount"@) {
                    if let Ok(sum) = ask_result(n, NumberOp::Add, bonus, x) {
                        lemma_good_cards(cards, k + 1, sum, double, so_far, id, n);
                    }
                }
            },
            NodeView::Spell(spell, args) => {
                let first = so_far.push(spell_node(spell, args, bonus));
                lemma_good_cards(cards, k + 1, bonus, false, first, id, n);
                if k + 1 < cards.len() && cards[k + 1] is Spell {
                    lemma_good_cards(
                        cards,
                        k + 2,
                        bonus,
                        false,
                        first.push(
                            spell_node(cards[k + 1]->Spell_0, cards[k + 1]->Spell_1, bonus),
                        ),
                        id,
                        n,
                    );
                }
            },
            _ => {},
        }
    }
}

/// A law of decks: the first card that is none is reported, unless the sum of the bonuses before it
/// is not known yet; a deck of cards alone becomes a body, once the sums are known; and a body that
/// is no deck is refused.
pub proof fn law_other_cards_are_refused(
    skill: DefView,
    cards: Seq<NodeView>,
    known: NamesView,
    n: NumbersView,
    i: int,
)
    ensures
        skill.body == NodeView::Deck(cards) && 0 <= i < cards.len() && !is_card(cards[i]) && (
        forall|j: int| 0 <= j < i ==> is_card(#[trigger] cards[j])) ==> {
            let r = WandDeckCastModel.casts(skill, known, n);
            r matches Err(e) && (e is Unanswered || e == ErrorView::InvalidSkill(
                skill.id,
                MessageView::UnsupportedCard(cards[i]),
            ))
        },
        skill.body == NodeView::Deck(cards) && (forall|j: int|
            0 <= j < cards.len() ==> is_card(#[trigger] cards[j])) ==> {
            let r = WandDeckCastModel.casts(skill, known, n);
            r is Ok || r->Err_0 is Unanswered
        },
        !(skill.body is Deck) ==> (WandDeckCastModel.casts(skill, known, n) matches Err(
            ErrorView::InvalidSkill(id, _),
        ) && id == skill.id),
{
    if skill.body == NodeView::Deck(cards) {
        if 0 <= i < cards.len() && !is_card(cards[i]) && (forall|j: int|
            0 <= j < i ==> is_card(#[trigger] cards[j])) {
            lemma_bad_card(cards, 0, num_zero(), false, Seq::empty(), skill.id, n, i);
        }
        if forall|j: int| 0 <= j < cards.len() ==> is_card(#[trigger] cards[j]) {
            lemma_good_cards(cards, 0, num_zero(), false, Seq::empty(), skill.id, n);
        }
    }
}

} // verus!
