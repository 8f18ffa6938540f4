//! How expressions are written, and what names in them lead to.
use crate::context::ContextView;
use crate::error::ErrorView;
use crate::expr::{descend, entity_value, expr_value, named_value};
use crate::lexer::{run_end, runs_over, words_from, LexFaultView, Op, Run, TokenView};
use crate::meaning_laws::law_words;
use crate::number::{NumbersView, QuestionView};
use crate::table::lookup;
use crate::text::{first_dot, is_digit, is_letter, lemma_first_dot_unique};
use crate::value::{ArgsView, ValueView};
use vstd::prelude::*;

verus! {

/// A text that is written as one name.
pub open spec fn is_name(t: Seq<char>) -> bool {
    &&& t.len() > 0
    &&& is_letter(t[0]) || t[0] == '_' || t[0] == '$'
    &&& forall|i: int|
        0 <= i < t.len() ==> is_letter(#[trigger] t[i]) || is_digit(t[i]) || t[i] == '_' || t[i]
            == '.' || t[i] == '$'
}

/// A text of digits and dots that begins with a digit.
pub open spec fn is_numeral(t: Seq<char>) -> bool {
    &&& t.len() > 0
    &&& is_digit(t[0])
    &&& forall|i: int| 0 <= i < t.len() ==> is_digit(#[trigger] t[i]) || t[i] == '.'
}

/// A word runs on to the end of a text that it runs over.
proof fn lemma_runs_on(run: Run, t: Seq<char>, i: int, end: int)
    requires
        0 <= i <= end <= t.len(),
        forall|j: int| i <= j < end ==> runs_over(run, #[trigger] t[j]),
        end < t.len() ==> !runs_over(run, t[end]),
    ensures
        run_end(run, t, i) == end,
    decreases end - i,
{
    if i < end {
        lemma_runs_on(run, t, i + 1, end);
    }
}

/// A law of spelling: a name is one word.
pub proof fn law_names_are_words(t: Seq<char>, n: NumbersView)
    requires
        is_name(t),
    ensures
        words_from(t, 0, n) == Ok::<Seq<TokenView>, LexFaultView>(seq![TokenView::Ident(t)]),
{
    lemma_runs_on(Run::Ident, t, 1, t.len() as int);
    assert(t.subrange(0, t.len() as int) =~= t);
    assert(words_from(t, t.len() as int, n) == Ok::<Seq<TokenView>, LexFaultView>(Seq::empty()));
    assert(seq![TokenView::Ident(t)] + Seq::<TokenView>::empty() =~= seq![TokenView::Ident(t)]);
}

/// A law of spelling: a text in quotes is one word, with everything between the quotes.
pub proof fn law_quoted_texts_are_words(s: Seq<char>, n: NumbersView)
    requires
        forall|i: int| 0 <= i < s.len() ==> #[trigger] s[i] != '"',
    ensures
        words_from(seq!['"'] + s + seq!['"'], 0, n) == Ok::<Seq<TokenView>, LexFaultView>(
            seq![TokenView::Str(s)],
        ),
{
    let t = seq!['"'] + s + seq!['"'];
    let end = s.len() as int + 1;
    assert forall|j: int| 1 <= j < end implies runs_over(Run::Quoted, #[trigger] t[j]) by {
        assert(t[j] == s[j - 1]);
    }
    lemma_runs_on(Run::Quoted, t, 1, end);
    assert(t[0] == '"' && t[end] == '"');
    assert(t.subrange(1, end) =~= s);
    assert(words_from(t, end + 1, n) == Ok::<Seq<TokenView>, LexFaultView>(Seq::empty()));
    assert(seq![TokenView::Str(s)] + Seq::<TokenView>::empty() =~= seq![TokenView::Str(s)]);
}

/// A law of spelling: digits and dots are one number, if the host says so.
pub proof fn law_numerals_are_numbers(t: Seq<char>, n: NumbersView)
    requires
        is_numeral(t),
    ensures
        !n.parsed.contains_key(t) ==> words_from(t, 0, n) == Err::<Seq<TokenView>, LexFaultView>(
            LexFaultView::Ask(QuestionView::Parse(t)),
        ),
        n.parsed.contains_key(t) && n.parsed[t] is None ==> words_from(t, 0, n) == Err::<
            Seq<TokenView>,
            LexFaultView,
        >(LexFaultView::InvalidNumber(t)),
        n.parsed.contains_key(t) && n.parsed[t] is Some ==> words_from(t, 0, n) == Ok::<
            Seq<TokenView>,
            LexFaultView,
        >(seq![TokenView::Number(n.parsed[t]->0)]),
{
    lemma_runs_on(Run::Number, t, 1, t.len() as int);
    assert(t.subrange(0, t.len() as int) =~= t);
    assert(words_from(t, t.len() as int, n) == Ok::<Seq<TokenView>, LexFaultView>(Seq::empty()));
    if n.parsed.contains_key(t) && n.parsed[t] is Some {
        let w = TokenView::Number(n.parsed[t]->0);
        assert(seq![w] + Seq::<TokenView>::empty() =~= seq![w]);
    }
}

/// How an operator is written.
pub open spec fn written(op: Op) -> Seq<char> {
    match op {
        Op::Nullish => seq!['?', '?'],
        Op::Or => seq!['|', '|'],
        Op::And => seq!['&', '&'],
        Op::Eq => seq!['=', '='],
        Op::Ne => seq!['!', '='],
        Op::Lt => seq!['<'],
        Op::Le => seq!['<', '='],
        Op::Gt => seq!['>'],
        Op::Ge => seq!['>', '='],
        Op::Plus => seq!['+'],
        Op::Minus => seq!['-'],
        Op::Times => seq!['*'],
        Op::Over => seq!['/'],
        Op::Not => seq!['!'],
    }
}

/// A law of spelling: every operator and every bracket is a word.
pub proof fn law_operators_are_words(op: Op, n: NumbersView)
    ensures
        words_from(written(op), 0, n) == Ok::<Seq<TokenView>, LexFaultView>(
            seq![TokenView::Op(op)],
        ),
        words_from(seq!['('], 0, n) == Ok::<Seq<TokenView>, LexFaultView>(seq![TokenView::LParen]),
        words_from(seq![')'], 0, n) == Ok::<Seq<TokenView>, LexFaultView>(seq![TokenView::RParen]),
{
    let t = written(op);
    assert(words_from(t, t.len() as int, n) == Ok::<Seq<TokenView>, LexFaultView>(Seq::empty()));
    assert(seq![TokenView::Op(op)] + Seq::<TokenView>::empty() =~= seq![TokenView::Op(op)]);
    assert(words_from(seq!['('], 1, n) == Ok::<Seq<TokenView>, LexFaultView>(Seq::empty()));
    assert(words_from(seq![')'], 1, n) == Ok::<Seq<TokenView>, LexFaultView>(Seq::empty()));
    assert(seq![TokenView::LParen] + Seq::<TokenView>::empty() =~= seq![TokenView::LParen]);
    assert(seq![TokenView::RParen] + Seq::<TokenView>::empty() =~= seq![TokenView::RParen]);
}

/// A text without dots.
pub open spec fn dotless(t: Seq<char>) -> bool {
    forall|i: int| 0 <= i < t.len() ==> #[trigger] t[i] != '.'
}

proof fn lemma_first_part(root: Seq<char>, rest: Seq<char>)
    requires
        dotless(root),
    ensures
        ({
            let path = root + seq!['.'] + rest;
            &&& first_dot(path) == root.len()
            &&& path.subrange(0, root.len() as int) == root
            &&& path.subrange(root.len() as int + 1, path.len() as int) == rest
            &&& path.len() == root.len() + 1 + rest.len()
        }),
{
    let path = root + seq!['.'] + rest;
    assert forall|i: int| 0 <= i < root.len() implies path[i] != '.' by {
        assert(path[i] == root[i]);
    }
    assert(path[root.len() as int] == '.');
    lemma_first_dot_unique(path, root.len() as int);
    assert(path.subrange(0, root.len() as int) =~= root);
    assert(path.subrange(root.len() as int + 1, path.len() as int) =~= rest);
}

proof fn lemma_no_dot(t: Seq<char>)
    requires
        dotless(t),
    ensures
        first_dot(t) == t.len(),
{
    lemma_first_dot_unique(t, t.len() as int);
}

/// A path of a name and then another path.
pub open spec fn below(name: Seq<char>, rest: Seq<char>) -> Seq<char> {
    name + seq!['.'] + rest
}

/// A law of names: a path leads through tables, name by name, and to nothing where a name leads to
/// something else than a table.
pub proof fn law_paths_lead_through_tables(t: ArgsView, name: Seq<char>, rest: Seq<char>)
    requires
        dotless(name),
    ensures
        descend(t, name) == lookup(t, name),
        lookup(t, name) matches Some(ValueView::Table(inner)) ==> descend(t, below(name, rest))
            == descend(inner, rest),
        !(lookup(t, name) is Some && lookup(t, name)->0 is Table) ==> descend(t, below(name, rest))
            is None,
{
    lemma_no_dot(name);
    lemma_first_part(name, rest);
}

/// The names that lead to something else than variables and stats.
pub open spec fn is_reserved(name: Seq<char>) -> bool {
    name == "stat"@ || name == "var"@ || name == "vars"@ || name == "event"@ || name == "skill"@
}

proof fn lemma_roots()
    ensures
        dotless("stat"@),
        dotless("var"@),
        dotless("vars"@),
        dotless("event"@),
        dotless("skill"@),
        dotless("id"@),
        "stat"@ != "var"@,
        "stat"@ != "vars"@,
        "stat"@ != "event"@,
        "stat"@ != "skill"@,
        "var"@ != "vars"@,
        "var"@ != "event"@,
        "var"@ != "skill"@,
        "vars"@ != "event"@,
        "vars"@ != "skill"@,
        "event"@ != "skill"@,
        "target"@ != "caster"@,
{
    reveal_strlit("stat");
    reveal_strlit("var");
    reveal_strlit("vars");
    reveal_strlit("event");
    reveal_strlit("skill");
    reveal_strlit("id");
    reveal_strlit("target");
    reveal_strlit("caster");
    assert("stat"@[0] == 's' && "var"@[0] == 'v' && "vars"@[0] == 'v' && "event"@[0] == 'e'
        && "skill"@[0] == 's');
    assert("stat"@[1] == 't' && "skill"@[1] == 'k');
    assert("var"@.len() == 3 && "vars"@.len() == 4);
    assert("target"@[0] == 't' && "caster"@[0] == 'c');
}

/// The law of names: `stat.x` is the stat, `var.x` and `vars.x` the variable, `event.x` what the
/// payload of the event has, or else its target or caster, and `skill.id` the skill; a bare name is
/// a variable, or else a stat; and paths go on below.
pub proof fn law_names_lead(path: Seq<char>, name: Seq<char>, ctx: ContextView)
    requires
        path.len() > 0,
        dotless(name),
        !is_reserved(name),
    ensures
        named_value(below("stat"@, path), ctx) == descend(ctx.stats, path),
        named_value(below("var"@, path), ctx) == descend(ctx.vars, path),
        named_value(below("vars"@, path), ctx) == descend(ctx.vars, path),
        named_value(below("skill"@, "id"@), ctx) == Some(ValueView::String(ctx.skill_id)),
        ctx.source_event is None ==> named_value(below("event"@, path), ctx) is None,
        ctx.source_event matches Some(e) ==> {
            &&& descend(e.payload, path) is Some ==> named_value(below("event"@, path), ctx)
                == descend(e.payload, path)
            &&& descend(e.payload, path) is None && path == "target"@ && e.target is Some
                ==> named_value(below("event"@, path), ctx) == Some(entity_value(e.target->0))
            &&& descend(e.payload, path) is None && path == "caster"@ && e.caster is Some
                ==> named_value(below("event"@, path), ctx) == Some(entity_value(e.caster->0))
            &&& descend(e.payload, path) is None && path != "target"@ && path != "caster"@
                ==> named_value(below("event"@, path), ctx) is None
        },
        lookup(ctx.vars, name) is Some ==> named_value(name, ctx) == lookup(ctx.vars, name),
        lookup(ctx.vars, name) is None ==> named_value(name, ctx) == lookup(ctx.stats, name),
{
    lemma_roots();
    lemma_first_part("stat"@, path);
    lemma_first_part("var"@, path);
    lemma_first_part("vars"@, path);
    lemma_first_part("event"@, path);
    lemma_first_part("skill"@, "id"@);
    lemma_no_dot(name);
    assert(Seq::<char>::empty().len() == 0);
    reveal_strlit("id");
    assert("id"@.len() == 2);
}

/// A variable, or else a stat.
pub open spec fn variable_or_stat(name: Seq<char>, ctx: ContextView) -> Option<ValueView> {
    if lookup(ctx.vars, name) is Some {
        lookup(ctx.vars, name)
    } else {
        lookup(ctx.stats, name)
    }
}

/// The law of roots: `stat`, `var`, `vars` and `event` alone are all that can be found below them;
/// below any other name, and below `skill` but for `skill.id`, there is nothing but the variable or
/// the stat of that name.
pub proof fn law_roots_lead(path: Seq<char>, name: Seq<char>, ctx: ContextView)
    requires
        path.len() > 0,
        dotless(name),
        !is_reserved(name),
    ensures
        named_value("stat"@, ctx) == Some(ValueView::Table(ctx.stats)),
        named_value("var"@, ctx) == Some(ValueView::Table(ctx.vars)),
        named_value("vars"@, ctx) == Some(ValueView::Table(ctx.vars)),
        ctx.source_event is None ==> named_value("event"@, ctx) is None,
        ctx.source_event matches Some(e) ==> named_value("event"@, ctx) == Some(
            ValueView::Table(e.payload),
        ),
        named_value("skill"@, ctx) == variable_or_stat("skill"@, ctx),
        path != "id"@ ==> named_value(below("skill"@, path), ctx) == variable_or_stat(
            "skill"@,
            ctx,
        ),
        named_value(below(name, path), ctx) == variable_or_stat(name, ctx),
{
    lemma_roots();
    lemma_first_part(name, path);
    lemma_first_part("skill"@, path);
    lemma_no_dot("stat"@);
    lemma_no_dot("var"@);
    lemma_no_dot("vars"@);
    lemma_no_dot("event"@);
    lemma_no_dot("skill"@);
    reveal_strlit("id");
    assert("id"@.len() == 2);
    assert(Seq::<char>::empty().len() == 0);
}

/// The law of names: an expression that is a name alone has the value that the name leads to, and
/// nothing where it leads nowhere.
pub proof fn law_name_expressions(t: Seq<char>, ctx: ContextView, n: NumbersView)
    requires
        is_name(t),
        t != "true"@,
        t != "false"@,
        t != "null"@,
    ensures
        expr_value(t, ctx, n) == Ok::<ValueView, ErrorView>(
            match named_value(t, ctx) {
                Some(v) => v,
                None => ValueView::Null,
            },
        ),
{
    law_names_are_words(t, n);
    law_words(TokenView::Ident(t), ctx, n);
}

} // verus!
