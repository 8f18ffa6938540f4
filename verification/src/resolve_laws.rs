//! How values and arguments are worked out.
use crate::collect::{collected, lemma_first_failure};
use crate::context::ContextView;
use crate::error::ErrorView;
use crate::expr::{each_arg, each_value, expr_like, expr_value, resolved, resolved_args};
use crate::number::NumbersView;
use crate::text::{begins_with, occurs_at, occurs_in};
use crate::value::{ArgsView, ValueView};
use vstd::prelude::*;

verus! {

/// A value that is not worked out: everything but expressions, tables and lists.
pub open spec fn stands_for_itself(v: ValueView) -> bool {
    v is Number || v is String || v is Bool || v is Null || v is Node || (v is Special && !(
    v->Special_0 is Expr))
}

/// The law of values: an expression is worked out, a list place by place, a table name by name, and
/// a list of one text that looks like an expression is worked out as one; anything else stays as it
/// is.
pub proof fn law_values_are_worked_out(v: ValueView, ctx: ContextView, n: NumbersView)
    ensures
        stands_for_itself(v) ==> resolved(v, ctx, n) == Ok::<ValueView, ErrorView>(v),
        v is Special && v->Special_0 is Expr ==> resolved(v, ctx, n) == expr_value(
            v->Special_0->Expr_0,
            ctx,
            n,
        ),
        v is List && v->List_0.len() == 1 && v->List_0[0] is String && expr_like(
            v->List_0[0]->String_0,
        ) ==> resolved(v, ctx, n) == expr_value(v->List_0[0]->String_0, ctx, n),
        v is List && !(v->List_0.len() == 1 && v->List_0[0] is String && expr_like(
            v->List_0[0]->String_0,
        )) ==> match resolved(v, ctx, n) {
            Ok(w) => w is List && w->List_0.len() == v->List_0.len() && forall|i: int|
                0 <= i < v->List_0.len() ==> resolved(#[trigger] v->List_0[i], ctx, n) == Ok::<
                    ValueView,
                    ErrorView,
                >(w->List_0[i]),
            Err(e) => exists|i: int|
                0 <= i < v->List_0.len() && resolved(#[trigger] v->List_0[i], ctx, n) == Err::<
                    ValueView,
                    ErrorView,
                >(e) && forall|j: int|
                    0 <= j < i ==> resolved(#[trigger] v->List_0[j], ctx, n) is Ok,
        },
        v is Table ==> match resolved_args(v->Table_0, ctx, n) {
            Ok(t) => resolved(v, ctx, n) == Ok::<ValueView, ErrorView>(ValueView::Table(t)),
            Err(e) => resolved(v, ctx, n) == Err::<ValueView, ErrorView>(e),
        },
{
    if v is List && !(v->List_0.len() == 1 && v->List_0[0] is String && expr_like(
        v->List_0[0]->String_0,
    )) {
        let l = v->List_0;
        let parts = each_value(l, ctx, n);
        assert forall|i: int| 0 <= i < l.len() implies #[trigger] parts[i] == resolved(
            l[i],
            ctx,
            n,
        ) by {}
        match collected(parts) {
            Ok(s) => {
                assert forall|i: int| 0 <= i < l.len() implies resolved(#[trigger] l[i], ctx, n)
                    == Ok::<ValueView, ErrorView>(s[i]) by {
                    assert(parts[i] is Ok);
                }
            },
            Err(e) => {
                let k = first_bad(parts, 0);
                lemma_first_bad(parts, 0);
                lemma_first_failure(parts, k);
                assert(resolved(l[k], ctx, n) == Err::<ValueView, ErrorView>(e));
                assert forall|j: int| 0 <= j < k implies resolved(#[trigger] l[j], ctx, n) is Ok by {
                    assert(parts[j] is Ok);
                }
            },
        }
    }
}

/// The first failure from the `k`-th on.
spec fn first_bad(r: Seq<Result<ValueView, ErrorView>>, k: int) -> int
    decreases r.len() - k,
{
    if 0 <= k < r.len() && r[k] is Ok {
        first_bad(r, k + 1)
    } else {
        k
    }
}

proof fn lemma_first_bad(r: Seq<Result<ValueView, ErrorView>>, k: int)
    requires
        0 <= k <= r.len(),
        forall|j: int| 0 <= j < k ==> (#[trigger] r[j]) is Ok,
        exists|i: int| 0 <= i < r.len() && !((#[trigger] r[i]) is Ok),
    ensures
        k <= first_bad(r, k) < r.len(),
        r[first_bad(r, k)] is Err,
        forall|j: int| 0 <= j < first_bad(r, k) ==> (#[trigger] r[j]) is Ok,
    decreases r.len() - k,
{
    if k < r.len() && r[k] is Ok {
        lemma_first_bad(r, k + 1);
    }
}

/// The law of arguments: arguments keep their names and their order, each has its own value worked
/// out, and the first that cannot be worked out is the error.
pub proof fn law_arguments_are_worked_out(t: ArgsView, ctx: ContextView, n: NumbersView)
    ensures
        match resolved_args(t, ctx, n) {
            Ok(u) => u.len() == t.len() && forall|i: int|
                0 <= i < t.len() ==> (#[trigger] u[i]).0 == t[i].0 && resolved(t[i].1, ctx, n)
                    == Ok::<ValueView, ErrorView>(u[i].1),
            Err(e) => exists|i: int|
                0 <= i < t.len() && resolved((#[trigger] t[i]).1, ctx, n) == Err::<
                    ValueView,
                    ErrorView,
                >(e) && forall|j: int|
                    0 <= j < i ==> resolved((#[trigger] t[j]).1, ctx, n) is Ok,
        },
{
    let parts = each_arg(t, ctx, n);
    assert forall|i: int| 0 <= i < t.len() implies #[trigger] parts[i] == resolved(
        t[i].1,
        ctx,
        n,
    ) by {}
    match resolved_args(t, ctx, n) {
        Ok(u) => {
            assert forall|i: int| 0 <= i < t.len() implies (#[trigger] u[i]).0 == t[i].0
                && resolved(t[i].1, ctx, n) == Ok::<ValueView, ErrorView>(u[i].1) by {
                assert(parts[i] is Ok);
            }
        },
        Err(e) => {
            let k = first_bad(parts, 0);
            lemma_first_bad(parts, 0);
            lemma_first_failure(parts, k);
            assert(resolved(t[k].1, ctx, n) == Err::<ValueView, ErrorView>(e));
            assert forall|j: int| 0 <= j < k implies resolved((#[trigger] t[j]).1, ctx, n) is Ok by {
                assert(parts[j] is Ok);
            }
        },
    }
}

proof fn lemma_inside(a: Seq<char>, p: Seq<char>, b: Seq<char>)
    ensures
        occurs_in(a + p + b, p),
{
    let t = a + p + b;
    assert(t.subrange(a.len() as int, a.len() as int + p.len()) =~= p);
    assert(occurs_at(t, p, a.len() as int));
}

proof fn lemma_in_front(p: Seq<char>, b: Seq<char>)
    ensures
        begins_with(p + b, p),
{
    assert((p + b).subrange(0, p.len() as int) =~= p);
}

/// The law of likeness: a text looks like an expression if it begins with one of the roots of
/// names, or has one of the operators of two sides in it, with blanks round it.
pub proof fn law_looks_like_an_expression(a: Seq<char>, b: Seq<char>)
    ensures
        expr_like("stat."@ + b),
        expr_like("event."@ + b),
        expr_like("var."@ + b),
        expr_like("vars."@ + b),
        expr_like(a + " ?? "@ + b),
        expr_like(a + " * "@ + b),
        expr_like(a + " + "@ + b),
        expr_like(a + " - "@ + b),
        expr_like(a + " / "@ + b),
        expr_like(a + " == "@ + b),
        expr_like(a + " != "@ + b),
        expr_like(a + " >= "@ + b),
        expr_like(a + " <= "@ + b),
        expr_like(a + " && "@ + b),
        expr_like(a + " || "@ + b),
        !expr_like(Seq::empty()),
{
    lemma_in_front("stat."@, b);
    lemma_in_front("event."@, b);
    lemma_in_front("var."@, b);
    lemma_in_front("vars."@, b);
    lemma_inside(a, " ?? "@, b);
    lemma_inside(a, " * "@, b);
    lemma_inside(a, " + "@, b);
    lemma_inside(a, " - "@, b);
    lemma_inside(a, " / "@, b);
    lemma_inside(a, " == "@, b);
    lemma_inside(a, " != "@, b);
    lemma_inside(a, " >= "@, b);
    lemma_inside(a, " <= "@, b);
    lemma_inside(a, " && "@, b);
    lemma_inside(a, " || "@, b);
    reveal_strlit("stat.");
    reveal_strlit("event.");
    reveal_strlit("var.");
    reveal_strlit("vars.");
    reveal_strlit(" ?? ");
    reveal_strlit(" * ");
    reveal_strlit(" + ");
    reveal_strlit(" - ");
    reveal_strlit(" / ");
    reveal_strlit(" == ");
    reveal_strlit(" != ");
    reveal_strlit(" >= ");
    reveal_strlit(" <= ");
    reveal_strlit(" && ");
    reveal_strlit(" || ");
}

/// The law of likeness: a text without dots and without blanks is no expression.
pub proof fn law_plain_texts_are_no_expressions(t: Seq<char>)
    requires
        forall|i: int| 0 <= i < t.len() ==> #[trigger] t[i] != '.' && t[i] != ' ',
    ensures
        !expr_like(t),
{
    reveal_strlit("stat.");
    reveal_strlit("event.");
    reveal_strlit("var.");
    reveal_strlit("vars.");
    lemma_not_in_front(t, "stat."@, 4);
    lemma_not_in_front(t, "event."@, 5);
    lemma_not_in_front(t, "var."@, 3);
    lemma_not_in_front(t, "vars."@, 4);
    reveal_strlit(" ?? ");
    reveal_strlit(" * ");
    reveal_strlit(" + ");
    reveal_strlit(" - ");
    reveal_strlit(" / ");
    reveal_strlit(" == ");
    reveal_strlit(" != ");
    reveal_strlit(" >= ");
    reveal_strlit(" <= ");
    reveal_strlit(" && ");
    reveal_strlit(" || ");
    lemma_not_inside(t, " ?? "@);
    lemma_not_inside(t, " * "@);
    lemma_not_inside(t, " + "@);
    lemma_not_inside(t, " - "@);
    lemma_not_inside(t, " / "@);
    lemma_not_inside(t, " == "@);
    lemma_not_inside(t, " != "@);
    lemma_not_inside(t, " >= "@);
    lemma_not_inside(t, " <= "@);
    lemma_not_inside(t, " && "@);
    lemma_not_inside(t, " || "@);
}

proof fn lemma_not_in_front(t: Seq<char>, p: Seq<char>, k: int)
    requires
        0 <= k < p.len(),
        p[k] == '.',
        forall|i: int| 0 <= i < t.len() ==> #[trigger] t[i] != '.' && t[i] != ' ',
    ensures
        !begins_with(t, p),
{
    if begins_with(t, p) {
        assert(t.subrange(0, p.len() as int)[k] == t[k]);
    }
}

proof fn lemma_not_inside(t: Seq<char>, p: Seq<char>)
    requires
        p.len() > 0,
        p[0] == ' ',
        forall|i: int| 0 <= i < t.len() ==> #[trigger] t[i] != '.' && t[i] != ' ',
    ensures
        !occurs_in(t, p),
{
    if occurs_in(t, p) {
        let i = choose|i: int| occurs_at(t, p, i);
        assert(t.subrange(i, i + p.len())[0] == t[i]);
    }
}

} // verus!
