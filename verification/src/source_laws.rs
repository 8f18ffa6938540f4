//! What becomes of the skills in a source.
use crate::asset::{
    all_inserted, batch, compiled_ids, loaded, source_compiled, stale_removed, BatchView,
    SourceView,
};
use crate::compile::compiled;
use crate::def::{CompiledView, DefView};
use crate::effect::question_of;
use crate::error::ErrorView;
use crate::library::{compiled_inserted, marked_invalid, same_for, LibraryView};
use crate::number::{NumbersView, QuestionView};
use crate::registry::RegistryView;
use vstd::prelude::*;

verus! {

/// The first definitions compile to these skills, one for one.
pub open spec fn compile_to(
    defs: Seq<DefView>,
    skills: Seq<CompiledView>,
    registry: RegistryView,
    n: NumbersView,
) -> bool {
    &&& skills.len() <= defs.len()
    &&& forall|i: int|
        0 <= i < skills.len() ==> compiled(#[trigger] defs[i], registry, n) == Ok::<
            CompiledView,
            ErrorView,
        >(skills[i])
}

/// No two definitions have the same identifier.
pub open spec fn distinct_ids(defs: Seq<DefView>) -> bool {
    forall|i: int, j: int|
        0 <= i < j < defs.len() ==> (#[trigger] defs[i]).id != (#[trigger] defs[j]).id
}

proof fn lemma_batch(
    defs: Seq<DefView>,
    skills: Seq<CompiledView>,
    k: int,
    registry: RegistryView,
    n: NumbersView,
)
    requires
        compile_to(defs, skills, registry, n),
        0 <= k <= skills.len(),
    ensures
        batch(defs, k, skills.take(k), registry, n) == batch(
            defs,
            skills.len() as int,
            skills,
            registry,
            n,
        ),
    decreases skills.len() - k,
{
    if k < skills.len() {
        lemma_batch(defs, skills, k + 1, registry, n);
        assert(compiled(defs[k], registry, n) is Ok);
        assert(skills.take(k).push(skills[k]) =~= skills.take(k + 1));
    } else {
        assert(skills.take(k) =~= skills);
    }
}

proof fn lemma_inserted(
    l: LibraryView,
    skills: Seq<CompiledView>,
    k: nat,
    other: Seq<char>,
)
    requires
        k <= skills.len(),
    ensures
        (forall|i: int| 0 <= i < k ==> (#[trigger] skills[i]).id != other) ==> same_for(
            l,
            all_inserted(l, skills, k),
            other,
        ),
        forall|i: int|
            0 <= i < k && (forall|j: int| i < j < k ==> (#[trigger] skills[j]).id != skills[i].id)
                ==> all_inserted(l, skills, k).compiled.contains_pair(
                (#[trigger] skills[i]).id,
                skills[i],
            ) && !all_inserted(l, skills, k).invalid.contains_key(skills[i].id),
    decreases k,
{
    if k > 0 {
        lemma_inserted(l, skills, (k - 1) as nat, other);
        let before = all_inserted(l, skills, (k - 1) as nat);
        let after = all_inserted(l, skills, k);
        assert(after == compiled_inserted(before, skills[k - 1]));
        assert forall|i: int|
            0 <= i < k && (forall|j: int| i < j < k ==> (#[trigger] skills[j]).id != skills[i].id)
            implies after.compiled.contains_pair((#[trigger] skills[i]).id, skills[i])
            && !after.invalid.contains_key(skills[i].id) by {
            if i < k - 1 {
                assert(skills[k - 1].id != skills[i].id);
            }
        }
    }
}

/// A law of loading: where all definitions of a source compile, the source has their skills, in
/// order; of those with the same identifier the last can be cast, and skills that are not in the
/// source are as before.
pub proof fn law_sources_are_taken_in(
    defs: Seq<DefView>,
    skills: Seq<CompiledView>,
    registry: RegistryView,
    library: LibraryView,
    n: NumbersView,
    i: int,
    other: Seq<char>,
)
    requires
        compile_to(defs, skills, registry, n),
        skills.len() == defs.len(),
    ensures
        ({
            let r = source_compiled(Ok(defs), registry, library, n);
            &&& r matches Ok((Ok(ids), l))
            &&& r->Ok_0.0->Ok_0.len() == defs.len()
            &&& forall|j: int|
                0 <= j < defs.len() ==> #[trigger] r->Ok_0.0->Ok_0[j] == defs[j].id
            &&& 0 <= i < defs.len() && (forall|j: int|
                i < j < defs.len() ==> (#[trigger] defs[j]).id != defs[i].id) ==> {
                &&& r->Ok_0.1.compiled.contains_pair(defs[i].id, skills[i])
                &&& !r->Ok_0.1.invalid.contains_key(defs[i].id)
            }
            &&& (forall|j: int| 0 <= j < defs.len() ==> (#[trigger] defs[j]).id != other)
                ==> same_for(library, r->Ok_0.1, other)
        }),
{
    lemma_batch(defs, skills, 0, registry, n);
    assert(skills.take(0) =~= Seq::empty());
    lemma_inserted(library, skills, skills.len(), other);
    assert forall|j: int| 0 <= j < defs.len() implies (#[trigger] skills[j]).id == defs[j].id by {
        assert(compiled(defs[j], registry, n) is Ok);
    }
    assert forall|j: int| 0 <= j < defs.len() implies #[trigger] compiled_ids(skills)[j]
        == defs[j].id by {
        assert(skills[j].id == defs[j].id);
    }
    if 0 <= i < defs.len() && (forall|j: int|
        i < j < defs.len() ==> (#[trigger] defs[j]).id != defs[i].id) {
        assert forall|j: int| i < j < skills.len() implies (#[trigger] skills[j]).id
            != skills[i].id by {
            assert(defs[j].id != defs[i].id);
        }
    }
    if forall|j: int| 0 <= j < defs.len() ==> (#[trigger] defs[j]).id != other {
        assert forall|j: int| 0 <= j < skills.len() implies (#[trigger] skills[j]).id != other by {
            assert(defs[j].id != other);
        }
    }
}

/// A law of loading: the first definition that does not compile is the error of its source and
/// cannot be cast, with the reason; those before it can, and those behind it are as before.
pub proof fn law_sources_stop_at_the_first_fault(
    defs: Seq<DefView>,
    skills: Seq<CompiledView>,
    fault: ErrorView,
    registry: RegistryView,
    library: LibraryView,
    n: NumbersView,
    i: int,
)
    requires
        compile_to(defs, skills, registry, n),
        skills.len() < defs.len(),
        compiled(defs[skills.len() as int], registry, n) == Err::<CompiledView, ErrorView>(fault),
        !(fault is Unanswered),
        distinct_ids(defs),
        0 <= i < defs.len(),
    ensures
        ({
            let r = source_compiled(Ok(defs), registry, library, n);
            &&& r matches Ok((Err(e), l)) && e == fault
            &&& i < skills.len() ==> r->Ok_0.1.compiled.contains_pair(defs[i].id, skills[i])
                && !r->Ok_0.1.invalid.contains_key(defs[i].id)
            &&& i == skills.len() ==> r->Ok_0.1.invalid.contains_pair(defs[i].id, fault)
                && !r->Ok_0.1.compiled.contains_key(defs[i].id)
            &&& i > skills.len() ==> same_for(library, r->Ok_0.1, defs[i].id)
        }),
{
    let k = skills.len() as int;
    lemma_batch(defs, skills, 0, registry, n);
    assert(skills.take(0) =~= Seq::empty());
    assert(question_of(fault) is None);
    assert(batch(defs, k, skills, registry, n) == (BatchView::Stopped {
        compiled: skills,
        id: defs[k].id,
        error: fault,
    }));
    lemma_inserted(library, skills, skills.len(), defs[i].id);
    assert forall|j: int| 0 <= j < k implies (#[trigger] skills[j]).id == defs[j].id by {
        assert(compiled(defs[j], registry, n) is Ok);
    }
    let l = all_inserted(library, skills, skills.len());
    assert(source_compiled(Ok(defs), registry, library, n)->Ok_0.1 == marked_invalid(
        l,
        defs[k].id,
        fault,
    ));
    if i < k {
        assert forall|j: int| i < j < skills.len() implies (#[trigger] skills[j]).id
            != skills[i].id by {
            assert(defs[i].id != defs[j].id);
        }
        assert(defs[i].id != defs[k].id);
    }
    if i > k {
        assert forall|j: int| 0 <= j < skills.len() implies (#[trigger] skills[j]).id
            != defs[i].id by {
            assert(defs[j].id != defs[i].id);
        }
        assert(defs[k].id != defs[i].id);
    }
}

/// A law of loading: an answer that is missing for a definition is asked for.
pub proof fn law_sources_ask(
    defs: Seq<DefView>,
    skills: Seq<CompiledView>,
    q: QuestionView,
    registry: RegistryView,
    library: LibraryView,
    n: NumbersView,
)
    requires
        compile_to(defs, skills, registry, n),
        skills.len() < defs.len(),
        compiled(defs[skills.len() as int], registry, n) == Err::<CompiledView, ErrorView>(
            ErrorView::Unanswered(q),
        ),
    ensures
        source_compiled(Ok(defs), registry, library, n) matches Err(x) && x == q,
{
    let k = skills.len() as int;
    lemma_batch(defs, skills, 0, registry, n);
    assert(skills.take(0) =~= Seq::empty());
    assert(question_of(ErrorView::Unanswered(q)) == Some(q));
    assert(batch(defs, k, skills, registry, n) == BatchView::Ask(q));
}

/// A law of loading: a source that cannot be read changes nothing in the library.
pub proof fn law_unreadable_sources_change_nothing(
    e: ErrorView,
    registry: RegistryView,
    library: LibraryView,
    n: NumbersView,
)
    ensures
        source_compiled(Err(e), registry, library, n) matches Ok((Err(x), l)) && x == e && l
            == library,
{
}

proof fn lemma_kept(
    l: LibraryView,
    old_ids: Seq<Seq<char>>,
    k: nat,
    kept: Seq<Seq<char>>,
    id: Seq<char>,
)
    requires
        k <= old_ids.len(),
        kept.contains(id) || !old_ids.contains(id),
    ensures
        same_for(l, stale_removed(l, old_ids, k, kept), id),
    decreases k,
{
    if k > 0 {
        lemma_kept(l, old_ids, (k - 1) as nat, kept, id);
        assert(old_ids.contains(old_ids[k - 1]));
    }
}

/// A law of reloading: skills that a source still has, and those that it never had, are as before;
/// the source has the new skills and no error, and its text counts as loaded.
pub proof fn law_reloaded_skills_stay(
    s: SourceView,
    skills: Seq<Seq<char>>,
    library: LibraryView,
    id: Seq<char>,
)
    requires
        skills.contains(id) || !s.last_skills.contains(id),
    ensures
        same_for(library, loaded(s, Ok(skills), library).1, id),
        loaded(s, Ok(skills), library).0.last_skills == skills,
        loaded(s, Ok(skills), library).0.last_error is None,
        loaded(s, Ok(skills), library).0.applied_version == s.version,
        loaded(s, Ok(skills), library).0.version == s.version,
        loaded(s, Ok(skills), library).0.source == s.source,
{
    lemma_kept(library, s.last_skills, s.last_skills.len(), skills, id);
}

/// A law of reloading: a source that failed keeps the skills it had and the error, and counts as
/// loaded; no skill leaves the library.
pub proof fn law_failed_sources_keep_their_skills(s: SourceView, e: ErrorView, library: LibraryView)
    ensures
        loaded(s, Err(e), library).1 == library,
        loaded(s, Err(e), library).0.last_skills == s.last_skills,
        loaded(s, Err(e), library).0.last_error == Some(e),
        loaded(s, Err(e), library).0.applied_version == s.version,
        loaded(s, Err(e), library).0.version == s.version,
        loaded(s, Err(e), library).0.source == s.source,
{
}

} // verus!
