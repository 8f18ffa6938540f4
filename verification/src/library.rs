//! The skills that can be cast.
use crate::def::{CompiledView, SkillCompiled};
use crate::error::{ErrorView, SkillError};
use crate::table::{lemma_table_map, table_map, KeyedMap};
use crate::value::SkillId;
use vstd::prelude::*;

verus! {

/// The skills that can be cast, those that could not be compiled, and the entities of those that
/// have been brought into the world.
#[derive(Debug)]
pub struct SkillLibrary {
    compiled: KeyedMap<SkillCompiled>,
    invalid: KeyedMap<SkillError>,
    entities: KeyedMap<u64>,
}

pub struct LibraryView {
    pub compiled: Map<Seq<char>, CompiledView>,
    pub invalid: Map<Seq<char>, ErrorView>,
    pub entities: Map<Seq<char>, u64>,
}

spec fn compiled_content() -> spec_fn(SkillCompiled) -> CompiledView {
    |c: SkillCompiled| c@
}

spec fn error_content() -> spec_fn(SkillError) -> ErrorView {
    |e: SkillError| e@
}

spec fn entity_content() -> spec_fn(u64) -> u64 {
    |e: u64| e
}

/// The library after a skill was compiled. Its entity is still that of an earlier version, if
/// any, and is forgotten.
pub open spec fn compiled_inserted(l: LibraryView, c: CompiledView) -> LibraryView {
    LibraryView {
        compiled: l.compiled.insert(c.id, c),
        invalid: l.invalid.remove(c.id),
        entities: l.entities.remove(c.id),
    }
}

/// The library after a skill turned out to be invalid.
pub open spec fn marked_invalid(l: LibraryView, id: Seq<char>, e: ErrorView) -> LibraryView {
    LibraryView {
        compiled: l.compiled.remove(id),
        invalid: l.invalid.insert(id, e),
        entities: l.entities.remove(id),
    }
}

/// The library without a skill.
pub open spec fn removed(l: LibraryView, id: Seq<char>) -> LibraryView {
    LibraryView {
        compiled: l.compiled.remove(id),
        invalid: l.invalid.remove(id),
        entities: l.entities.remove(id),
    }
}

impl SkillLibrary {
    pub closed spec fn view(&self) -> LibraryView {
        LibraryView {
            compiled: table_map(self.compiled@, compiled_content()),
            invalid: table_map(self.invalid@, error_content()),
            entities: table_map(self.entities@, entity_content()),
        }
    }

    /// A library without skills.
    pub fn new() -> (r: SkillLibrary)
        ensures
            r@ == (LibraryView {
                compiled: Map::empty(),
                invalid: Map::empty(),
                entities: Map::empty(),
            }),
    {
        let r = SkillLibrary {
            compiled: KeyedMap::new(),
            invalid: KeyedMap::new(),
            entities: KeyedMap::new(),
        };
        assert(r@.compiled =~= Map::empty());
        assert(r@.invalid =~= Map::empty());
        assert(r@.entities =~= Map::empty());
        r
    }

    /// The compiled skill with an identifier.
    pub fn get(&self, id: &SkillId) -> (r: Option<&SkillCompiled>)
        ensures
            match r {
                Some(c) => self@.compiled.contains_key(id@) && self@.compiled[id@] == c@,
                None => !self@.compiled.contains_key(id@),
            },
    {
        self.compiled.get(id.0.as_str())
    }

    /// Why the skill with an identifier could not be compiled.
    pub fn invalid(&self, id: &SkillId) -> (r: Option<&SkillError>)
        ensures
            match r {
                Some(e) => self@.invalid.contains_key(id@) && self@.invalid[id@] == e@,
                None => !self@.invalid.contains_key(id@),
            },
    {
        self.invalid.get(id.0.as_str())
    }

    /// The entity of the skill with an identifier.
    pub fn get_entity(&self, id: &SkillId) -> (r: Option<u64>)
        ensures
            match r {
                Some(e) => self@.entities.contains_key(id@) && self@.entities[id@] == e,
                None => !self@.entities.contains_key(id@),
            },
    {
        match self.entities.get(id.0.as_str()) {
            Some(e) => Some(*e),
            None => None,
        }
    }

    /// Notes the entity of a skill.
    pub fn set_entity(&mut self, id: SkillId, entity: u64)
        ensures
            final(self)@ == (LibraryView {
                entities: old(self)@.entities.insert(id@, entity),
                ..old(self)@
            }),
    {
        let ghost before = self.entities@;
        let _ = self.entities.insert(id.0, entity);
        proof {
            lemma_table_map(before, id@, entity, entity_content());
        }
    }

    /// Takes in a compiled skill. It is no longer invalid.
    pub fn insert_compiled(&mut self, compiled: SkillCompiled)
        ensures
            final(self)@ == compiled_inserted(old(self)@, compiled@),
    {
        let ghost (c, v, e) = (self.compiled@, self.invalid@, self.entities@);
        let ghost content = compiled;
        let id: String = compiled.id.0.clone();
        let _ = self.invalid.shift_remove(id.as_str());
        let _ = self.entities.shift_remove(id.as_str());
        let _ = self.compiled.insert(id, compiled);
        proof {
            lemma_table_map(c, content.id@, content, compiled_content());
            lemma_table_map(v, content.id@, arbitrary(), error_content());
            lemma_table_map(e, content.id@, arbitrary(), entity_content());
        }
    }

    /// Notes that a skill is invalid. An earlier version of it can no longer be cast.
    pub fn mark_invalid(&mut self, id: SkillId, error: SkillError)
        ensures
            final(self)@ == marked_invalid(old(self)@, id@, error@),
    {
        let ghost (c, v, e) = (self.compiled@, self.invalid@, self.entities@);
        let _ = self.compiled.shift_remove(id.0.as_str());
        let _ = self.entities.shift_remove(id.0.as_str());
        let _ = self.invalid.insert(id.0, error);
        proof {
            lemma_table_map(c, id@, arbitrary(), compiled_content());
            lemma_table_map(v, id@, error, error_content());
            lemma_table_map(e, id@, arbitrary(), entity_content());
        }
    }

    /// Forgets a skill.
    pub fn remove(&mut self, id: &SkillId)
        ensures
            final(self)@ == removed(old(self)@, id@),
    {
        let ghost (c, v, e) = (self.compiled@, self.invalid@, self.entities@);
        let _ = self.compiled.shift_remove(id.0.as_str());
        let _ = self.invalid.shift_remove(id.0.as_str());
        let _ = self.entities.shift_remove(id.0.as_str());
        proof {
            lemma_table_map(c, id@, arbitrary(), compiled_content());
            lemma_table_map(v, id@, arbitrary(), error_content());
            lemma_table_map(e, id@, arbitrary(), entity_content());
        }
    }
}

/// No skill is both compiled and invalid.
pub open spec fn consistent(l: LibraryView) -> bool {
    forall|id: Seq<char>| !(#[trigger] l.compiled.contains_key(id) && l.invalid.contains_key(id))
}

/// The law of the library: no skill is both compiled and invalid, whatever happens.
pub proof fn law_library_stays_consistent(
    l: LibraryView,
    c: CompiledView,
    id: Seq<char>,
    e: ErrorView,
)
    requires
        consistent(l),
    ensures
        consistent(compiled_inserted(l, c)),
        consistent(marked_invalid(l, id, e)),
        consistent(removed(l, id)),
{
}

/// The law of the library: a skill that was compiled is there as it was compiled, and is no longer
/// invalid; one that is invalid is not there, with its error; one that was removed is neither; and
/// other skills are as before.
pub proof fn law_library_holds_what_it_was_given(
    l: LibraryView,
    c: CompiledView,
    id: Seq<char>,
    e: ErrorView,
    other: Seq<char>,
)
    ensures
        compiled_inserted(l, c).compiled.contains_pair(c.id, c),
        !compiled_inserted(l, c).invalid.contains_key(c.id),
        !compiled_inserted(l, c).entities.contains_key(c.id),
        !marked_invalid(l, id, e).compiled.contains_key(id),
        marked_invalid(l, id, e).invalid.contains_pair(id, e),
        !marked_invalid(l, id, e).entities.contains_key(id),
        !removed(l, id).compiled.contains_key(id),
        !removed(l, id).invalid.contains_key(id),
        !removed(l, id).entities.contains_key(id),
        other != c.id ==> same_for(l, compiled_inserted(l, c), other),
        other != id ==> same_for(l, marked_invalid(l, id, e), other) && same_for(
            l,
            removed(l, id),
            other,
        ),
{
}

/// Two libraries say the same of a skill.
pub open spec fn same_for(a: LibraryView, b: LibraryView, id: Seq<char>) -> bool {
    &&& a.compiled.contains_key(id) == b.compiled.contains_key(id)
    &&& a.compiled.contains_key(id) ==> a.compiled[id] == b.compiled[id]
    &&& a.invalid.contains_key(id) == b.invalid.contains_key(id)
    &&& a.invalid.contains_key(id) ==> a.invalid[id] == b.invalid[id]
    &&& a.entities.contains_key(id) == b.entities.contains_key(id)
    &&& a.entities.contains_key(id) ==> a.entities[id] == b.entities[id]
}

} // verus!
