//! Skill sources that are reloaded when they change.
use crate::compile::{compile_skill, compiled};
use crate::def::{CompiledView, DefView, SkillCompiled, SkillDef};
use crate::effect::question_of;
use crate::error::{ErrorView, SkillError};
use crate::library::{
    compiled_inserted, marked_invalid, removed, LibraryView, SkillLibrary,
};
use crate::number::{NumberTable, NumbersView, QuestionView};
use crate::registry::{RegistryView, SkillRegistry};
use crate::table::{
    distinct, has_key, key_index, law_put_then_lookup, lemma_distinct, lemma_found, lookup, put,
    KeyedMap,
};
use crate::value::SkillId;
use vstd::prelude::*;

verus! {

/// The ways in which a source can hold skills.
#[derive(Debug)]
pub enum SkillAssetDocument {
    Single(SkillDef),
    Many(Vec<SkillDef>),
    Named { skills: Vec<SkillDef> },
}

/// The contents of a list of definitions.
pub open spec fn defs_view(s: Seq<SkillDef>) -> Seq<DefView> {
    Seq::new(s.len(), |i: int| s[i]@)
}

impl SkillAssetDocument {
    /// The skills of a document.
    pub fn into_skills(self) -> (r: Vec<SkillDef>)
        ensures
            r@ == match self {
                SkillAssetDocument::Single(def) => seq![def],
                SkillAssetDocument::Many(l) => l@,
                SkillAssetDocument::Named { skills } => skills@,
            },
    {
        match self {
            SkillAssetDocument::Single(def) => {
                let mut l: Vec<SkillDef> = Vec::new();
                l.push(def);
                assert(l@ =~= seq![def]);
                l
            },
            SkillAssetDocument::Many(l) => l,
            SkillAssetDocument::Named { skills } => skills,
        }
    }
}

/// The skills of a source, by the first way in which it can be read: as a list, as a document with
/// a named list, or as a single skill.
pub fn document_skills(
    many: Option<Vec<SkillDef>>,
    named: Option<Vec<SkillDef>>,
    single: Result<SkillDef, SkillError>,
) -> (r: Result<Vec<SkillDef>, SkillError>)
    ensures
        match (many, named, single) {
            (Some(l), _, _) => r == Ok::<Vec<SkillDef>, SkillError>(l),
            (None, Some(l), _) => r == Ok::<Vec<SkillDef>, SkillError>(l),
            (None, None, Ok(def)) => r matches Ok(l) && l@ == seq![def],
            (None, None, Err(e)) => r == Err::<Vec<SkillDef>, SkillError>(e),
        },
{
    if let Some(l) = many {
        return Ok(l);
    }
    if let Some(l) = named {
        return Ok(l);
    }
    match single {
        Ok(def) => Ok(SkillAssetDocument::Single(def).into_skills()),
        Err(e) => Err(e),
    }
}

pub open spec fn ids_view(s: Seq<SkillId>) -> Seq<Seq<char>> {
    Seq::new(s.len(), |i: int| s[i]@)
}

fn copy_ids(l: &Vec<SkillId>) -> (r: Vec<SkillId>)
    ensures
        r@ == l@,
{
    let mut out: Vec<SkillId> = Vec::new();
    let n: usize = l.len();
    let mut i: usize = 0;
    while i < n
        invariant
            i <= n,
            n == l@.len(),
            out@ == l@.subrange(0, i as int),
        decreases n - i,
    {
        out.push(l[i].clone());
        i = i + 1;
        assert(out@ =~= l@.subrange(0, i as int));
    }
    assert(out@ =~= l@);
    out
}

/// The report of a source that was loaded.
#[derive(Debug)]
pub struct SkillAssetReloaded {
    pub key: String,
    pub skills: Vec<SkillId>,
}

/// The report of a source that could not be loaded.
#[derive(Debug)]
pub struct SkillAssetReloadFailed {
    pub key: String,
    pub error: SkillError,
}

/// A source with what came of it when it was last loaded.
#[derive(Debug)]
pub struct SkillAssetSource {
    pub source: String,
    pub version: u64,
    pub applied_version: u64,
    pub last_skills: Vec<SkillId>,
    pub last_error: Option<SkillError>,
}

pub struct SourceView {
    pub source: Seq<char>,
    pub version: u64,
    pub applied_version: u64,
    pub last_skills: Seq<Seq<char>>,
    pub last_error: Option<ErrorView>,
}

impl SkillAssetSource {
    pub open spec fn view(&self) -> SourceView {
        SourceView {
            source: self.source@,
            version: self.version,
            applied_version: self.applied_version,
            last_skills: ids_view(self.last_skills@),
            last_error: match self.last_error {
                Some(e) => Some(e@),
                None => None,
            },
        }
    }
}

impl Clone for SkillAssetSource {
    fn clone(&self) -> (r: SkillAssetSource)
        ensures
            r@ == self@,
    {
        SkillAssetSource {
            source: self.source.clone(),
            version: self.version,
            applied_version: self.applied_version,
            last_skills: copy_ids(&self.last_skills),
            last_error: match &self.last_error {
                Some(e) => Some(e.clone()),
                None => None,
            },
        }
    }
}

/// The entries of a table of sources.
pub open spec fn sources_of(t: Seq<(Seq<char>, SkillAssetSource)>) -> Seq<(Seq<char>, SourceView)> {
    Seq::new(t.len(), |i: int| (t[i].0, t[i].1@))
}

proof fn lemma_sources(t: Seq<(Seq<char>, SkillAssetSource)>, key: Seq<char>)
    requires
        distinct(t),
    ensures
        distinct(sources_of(t)),
        has_key(sources_of(t), key) == has_key(t, key),
        has_key(t, key) ==> key_index(sources_of(t), key) == key_index(t, key) && 0 <= key_index(
            t,
            key,
        ) < t.len(),
{
    assert forall|i: int, j: int|
        0 <= i < sources_of(t).len() && 0 <= j < sources_of(t).len() && (#[trigger] sources_of(
            t,
        )[i]).0 == (#[trigger] sources_of(t)[j]).0 implies i == j by {
        assert(t[i].0 == t[j].0);
    }
    if has_key(t, key) {
        let i = key_index(t, key);
        assert(0 <= i < t.len() && t[i].0 == key);
        assert(sources_of(t)[i].0 == key);
        lemma_found(sources_of(t), i);
    }
    if has_key(sources_of(t), key) {
        let i = key_index(sources_of(t), key);
        assert(sources_of(t)[i].0 == key);
        assert(t[i].0 == key);
    }
}

proof fn lemma_sources_put(
    t: Seq<(Seq<char>, SkillAssetSource)>,
    key: Seq<char>,
    source: SkillAssetSource,
)
    requires
        distinct(t),
    ensures
        sources_of(put(t, key, source)) == put(sources_of(t), key, source@),
{
    lemma_sources(t, key);
    let a = sources_of(put(t, key, source));
    let b = put(sources_of(t), key, source@);
    assert(a.len() == b.len());
    assert forall|i: int| 0 <= i < a.len() implies #[trigger] a[i] == b[i] by {
        if i < t.len() {
            assert(sources_of(t)[i] == (t[i].0, t[i].1@));
        }
    }
    assert(a =~= b);
}

/// A version that follows another; the last one follows itself.
pub open spec fn next_version(v: u64) -> u64 {
    if v < u64::MAX {
        (v + 1) as u64
    } else {
        v
    }
}

/// The source after a new text.
pub open spec fn source_set(before: Option<SourceView>, text: Seq<char>) -> SourceView {
    match before {
        Some(s) => SourceView { source: text, version: next_version(s.version), ..s },
        None => SourceView {
            source: text,
            version: 1,
            applied_version: 0,
            last_skills: Seq::empty(),
            last_error: None,
        },
    }
}

/// A source has changed since it was last loaded.
pub open spec fn is_dirty(s: SourceView) -> bool {
    s.version != s.applied_version
}

/// The names of the sources among the first `k` that have changed, in order.
pub open spec fn dirty_among(t: Seq<(Seq<char>, SourceView)>, k: nat) -> Seq<Seq<char>>
    decreases k,
{
    if 0 < k <= t.len() {
        let before = dirty_among(t, (k - 1) as nat);
        if is_dirty(t[k - 1].1) {
            before.push(t[k - 1].0)
        } else {
            before
        }
    } else {
        Seq::empty()
    }
}

/// The sources of skills, by name.
#[derive(Debug)]
pub struct SkillAssetSources {
    sources: KeyedMap<SkillAssetSource>,
}

/// What comes of compiling the skills of a source.
pub enum BatchView {
    Ask(QuestionView),
    Done(Seq<CompiledView>),
    Stopped { compiled: Seq<CompiledView>, id: Seq<char>, error: ErrorView },
}

/// What comes of compiling the skills from the `k`-th on, behind those so far. The first that
/// cannot be compiled ends it.
pub open spec fn batch(
    defs: Seq<DefView>,
    k: int,
    so_far: Seq<CompiledView>,
    registry: RegistryView,
    n: NumbersView,
) -> BatchView
    decreases defs.len() - k,
{
    if 0 <= k < defs.len() {
        match compiled(defs[k], registry, n) {
            Ok(c) => batch(defs, k + 1, so_far.push(c), registry, n),
            Err(e) => match question_of(e) {
                Some(q) => BatchView::Ask(q),
                None => BatchView::Stopped { compiled: so_far, id: defs[k].id, error: e },
            },
        }
    } else {
        BatchView::Done(so_far)
    }
}

/// The library after the first `k` compiled skills were taken in.
pub open spec fn all_inserted(l: LibraryView, s: Seq<CompiledView>, k: nat) -> LibraryView
    decreases k,
{
    if 0 < k <= s.len() {
        compiled_inserted(all_inserted(l, s, (k - 1) as nat), s[k - 1])
    } else {
        l
    }
}

/// The identifiers of compiled skills.
pub open spec fn compiled_ids(s: Seq<CompiledView>) -> Seq<Seq<char>> {
    Seq::new(s.len(), |i: int| s[i].id)
}

/// What comes of a source: the skills that it now has, or an error, and the library afterwards.
pub open spec fn source_compiled(
    parsed: Result<Seq<DefView>, ErrorView>,
    registry: RegistryView,
    library: LibraryView,
    n: NumbersView,
) -> Result<(Result<Seq<Seq<char>>, ErrorView>, LibraryView), QuestionView> {
    match parsed {
        Err(e) => Ok((Err(e), library)),
        Ok(defs) => match batch(defs, 0, Seq::empty(), registry, n) {
            BatchView::Ask(q) => Err(q),
            BatchView::Done(s) => Ok((Ok(compiled_ids(s)), all_inserted(library, s, s.len()))),
            BatchView::Stopped { compiled, id, error } => Ok(
                (
                    Err(error),
                    marked_invalid(all_inserted(library, compiled, compiled.len()), id, error),
                ),
            ),
        },
    }
}

/// The library without those of the first `k` skills that are not kept.
pub open spec fn stale_removed(
    l: LibraryView,
    old_ids: Seq<Seq<char>>,
    k: nat,
    kept: Seq<Seq<char>>,
) -> LibraryView
    decreases k,
{
    if 0 < k <= old_ids.len() {
        let before = stale_removed(l, old_ids, (k - 1) as nat, kept);
        if kept.contains(old_ids[k - 1]) {
            before
        } else {
            removed(before, old_ids[k - 1])
        }
    } else {
        l
    }
}

/// The source and the library after the source was loaded.
pub open spec fn loaded(
    s: SourceView,
    outcome: Result<Seq<Seq<char>>, ErrorView>,
    library: LibraryView,
) -> (SourceView, LibraryView) {
    match outcome {
        Ok(skills) => (
            SourceView {
                applied_version: s.version,
                last_skills: skills,
                last_error: None,
                ..s
            },
            stale_removed(library, s.last_skills, s.last_skills.len(), skills),
        ),
        Err(e) => (
            SourceView { applied_version: s.version, last_error: Some(e), ..s },
            library,
        ),
    }
}

/// What comes of loading a source.
#[derive(Debug)]
pub enum ReloadOutcome {
    Reloaded(SkillAssetReloaded),
    Failed(SkillAssetReloadFailed),
    /// There is no such source.
    Missing,
}

pub enum ReloadView {
    Reloaded { key: Seq<char>, skills: Seq<Seq<char>> },
    Failed { key: Seq<char>, error: ErrorView },
    Missing,
}

impl ReloadOutcome {
    pub open spec fn view(&self) -> ReloadView {
        match self {
            ReloadOutcome::Reloaded(x) => ReloadView::Reloaded {
                key: x.key@,
                skills: ids_view(x.skills@),
            },
            ReloadOutcome::Failed(x) => ReloadView::Failed { key: x.key@, error: x.error@ },
            ReloadOutcome::Missing => ReloadView::Missing,
        }
    }
}

pub open spec fn reloads_view(s: Seq<ReloadOutcome>) -> Seq<ReloadView> {
    Seq::new(s.len(), |i: int| s[i]@)
}

/// The sources and the library, and what has come of loading so far.
pub struct ReloadingView {
    pub sources: Seq<(Seq<char>, SourceView)>,
    pub library: LibraryView,
    pub outcomes: Seq<ReloadView>,
}

/// What comes of loading a source under a name.
pub open spec fn reload_of(key: Seq<char>, outcome: Result<Seq<Seq<char>>, ErrorView>) -> ReloadView {
    match outcome {
        Ok(skills) => ReloadView::Reloaded { key, skills },
        Err(error) => ReloadView::Failed { key, error },
    }
}

/// A source together with what came of parsing its text.
pub type ParsedView = (Seq<char>, Result<Seq<DefView>, ErrorView>);

/// Loading the sources from the `k`-th on that have changed, until a question stops it.
pub open spec fn reloading(
    parsed: Seq<ParsedView>,
    k: int,
    r: ReloadingView,
    registry: RegistryView,
    n: NumbersView,
) -> (ReloadingView, Option<QuestionView>)
    decreases parsed.len() - k,
{
    if 0 <= k < parsed.len() {
        let (key, text) = parsed[k];
        match lookup(r.sources, key) {
            Some(s) if is_dirty(s) => match source_compiled(text, registry, r.library, n) {
                Err(q) => (r, Some(q)),
                Ok((outcome, l)) => {
                    let (after, left) = loaded(s, outcome, l);
                    reloading(
                        parsed,
                        k + 1,
                        ReloadingView {
                            sources: put(r.sources, key, after),
                            library: left,
                            outcomes: r.outcomes.push(reload_of(key, outcome)),
                        },
                        registry,
                        n,
                    )
                },
            },
            _ => reloading(parsed, k + 1, r, registry, n),
        }
    } else {
        (r, None)
    }
}

/// What came of parsing the text of a source.
#[derive(Debug)]
pub struct ParsedSource {
    pub key: String,
    pub parsed: Result<Vec<SkillDef>, SkillError>,
}

pub open spec fn parsed_sources_view(s: Seq<ParsedSource>) -> Seq<ParsedView> {
    Seq::new(s.len(), |i: int| (s[i].key@, parsed_view(s[i].parsed)))
}

pub open spec fn parsed_view(r: Result<Vec<SkillDef>, SkillError>) -> Result<
    Seq<DefView>,
    ErrorView,
> {
    match r {
        Ok(l) => Ok(defs_view(l@)),
        Err(e) => Err(e@),
    }
}

spec fn compiled_list(s: Seq<SkillCompiled>) -> Seq<CompiledView> {
    Seq::new(s.len(), |i: int| s[i]@)
}

enum Batch {
    Done(Vec<SkillCompiled>),
    Stopped(Vec<SkillCompiled>, SkillId, SkillError),
}

fn compile_batch(defs: &Vec<SkillDef>, registry: &SkillRegistry, numbers: &NumberTable) -> (r: Result<
    Batch,
    SkillError,
>)
    ensures
        match batch(defs_view(defs@), 0, Seq::empty(), registry@, numbers@) {
            BatchView::Ask(q) => r matches Err(e) && e@ == ErrorView::Unanswered(q),
            BatchView::Done(s) => r matches Ok(Batch::Done(l)) && compiled_list(l@) == s,
            BatchView::Stopped { compiled: s, id, error } => r matches Ok(Batch::Stopped(l, i, e))
                && compiled_list(l@) == s && i@ == id && e@ == error,
        },
{
    let ghost all = defs_view(defs@);
    let mut out: Vec<SkillCompiled> = Vec::new();
    assert(compiled_list(out@) =~= Seq::empty());
    let n: usize = defs.len();
    let mut i: usize = 0;
    while i < n
        invariant
            i <= n,
            n == defs@.len(),
            all == defs_view(defs@),
            batch(all, 0, Seq::empty(), registry@, numbers@) == batch(
                all,
                i as int,
                compiled_list(out@),
                registry@,
                numbers@,
            ),
        decreases n - i,
    {
        assert(all[i as int] == defs@[i as int]@);
        match compile_skill(&defs[i], registry, numbers) {
            Ok(c) => {
                let ghost before = out@;
                out.push(c);
                assert(compiled_list(out@) =~= compiled_list(before).push(c@));
            },
            Err(SkillError::Unanswered(q)) => return Err(SkillError::Unanswered(q)),
            Err(e) => return Ok(Batch::Stopped(out, defs[i].id.clone(), e)),
        }
        i = i + 1;
    }
    Ok(Batch::Done(out))
}

fn insert_all(l: Vec<SkillCompiled>, library: &mut SkillLibrary) -> (r: Vec<SkillId>)
    ensures
        final(library)@ == all_inserted(
            old(library)@,
            compiled_list(l@),
            compiled_list(l@).len(),
        ),
        ids_view(r@) == compiled_ids(compiled_list(l@)),
{
    let ghost s = compiled_list(l@);
    let mut ids: Vec<SkillId> = Vec::new();
    let n: usize = l.len();
    let mut i: usize = 0;
    while i < n
        invariant
            i <= n,
            n == l@.len(),
            s == compiled_list(l@),
            ids@.len() == i,
            forall|j: int| 0 <= j < i ==> (#[trigger] ids@[j])@ == s[j].id,
            library@ == all_inserted(old(library)@, s, i as nat),
        decreases n - i,
    {
        ids.push(l[i].id.clone());
        library.insert_compiled(l[i].clone());
        i = i + 1;
        assert(s[i - 1] == l@[i - 1]@);
    }
    assert(ids_view(ids@) =~= compiled_ids(s));
    ids
}

/// Compiles the skills of a source into the library. A question leaves the library as it was.
pub fn compile_asset_source(
    parsed: &Result<Vec<SkillDef>, SkillError>,
    registry: &SkillRegistry,
    library: &mut SkillLibrary,
    numbers: &NumberTable,
) -> (r: Result<Result<Vec<SkillId>, SkillError>, SkillError>)
    ensures
        match source_compiled(parsed_view(*parsed), registry@, old(library)@, numbers@) {
            Err(q) => r matches Err(e) && e@ == ErrorView::Unanswered(q) && *final(library) == *old(
                library,
            ),
            Ok((Ok(ids), l)) => r matches Ok(Ok(s)) && ids_view(s@) == ids && final(library)@ == l,
            Ok((Err(e), l)) => r matches Ok(Err(x)) && x@ == e && final(library)@ == l,
        },
{
    let defs = match parsed {
        Ok(l) => l,
        Err(e) => return Ok(Err(e.clone())),
    };
    match compile_batch(defs, registry, numbers) {
        Err(e) => Err(e),
        Ok(Batch::Done(l)) => Ok(Ok(insert_all(l, library))),
        Ok(Batch::Stopped(l, id, e)) => {
            let _ = insert_all(l, library);
            library.mark_invalid(id, e.clone());
            Ok(Err(e))
        },
    }
}

fn holds(l: &Vec<SkillId>, id: &SkillId) -> (r: bool)
    ensures
        r == ids_view(l@).contains(id@),
{
    let n: usize = l.len();
    let mut i: usize = 0;
    while i < n
        invariant
            i <= n,
            n == l@.len(),
            forall|j: int| 0 <= j < i ==> (#[trigger] ids_view(l@)[j]) != id@,
        decreases n - i,
    {
        if l[i].0 == id.0 {
            assert(ids_view(l@)[i as int] == id@);
            return true;
        }
        assert(ids_view(l@)[i as int] != id@);
        i = i + 1;
    }
    false
}

fn remove_stale(old_ids: &Vec<SkillId>, kept: &Vec<SkillId>, library: &mut SkillLibrary)
    ensures
        final(library)@ == stale_removed(
            old(library)@,
            ids_view(old_ids@),
            ids_view(old_ids@).len(),
            ids_view(kept@),
        ),
{
    let n: usize = old_ids.len();
    let mut i: usize = 0;
    while i < n
        invariant
            i <= n,
            n == old_ids@.len(),
            library@ == stale_removed(
                old(library)@,
                ids_view(old_ids@),
                i as nat,
                ids_view(kept@),
            ),
        decreases n - i,
    {
        if !holds(kept, &old_ids[i]) {
            library.remove(&old_ids[i]);
        }
        i = i + 1;
    }
}

impl SkillAssetSources {
    pub closed spec fn view(&self) -> Seq<(Seq<char>, SourceView)> {
        sources_of(self.sources@)
    }

    pub fn new() -> (r: SkillAssetSources)
        ensures
            r@ == Seq::<(Seq<char>, SourceView)>::empty(),
    {
        let r = SkillAssetSources { sources: KeyedMap::new() };
        assert(r@ =~= Seq::<(Seq<char>, SourceView)>::empty());
        r
    }

    /// Gives a source a text.
    pub fn set_source(&mut self, key: String, source: String)
        ensures
            final(self)@ == put(
                old(self)@,
                key@,
                source_set(lookup(old(self)@, key@), source@),
            ),
            distinct(old(self)@),
            distinct(final(self)@),
    {
        let ghost t = self.sources@;
        let entry = match self.sources.get(key.as_str()) {
            Some(s) => {
                let mut entry = s.clone();
                entry.source = source;
                if entry.version < u64::MAX {
                    entry.version = entry.version + 1;
                }
                entry
            },
            None => {
                let entry = SkillAssetSource {
                    source,
                    version: 1,
                    applied_version: 0,
                    last_skills: Vec::new(),
                    last_error: None,
                };
                assert(ids_view(entry.last_skills@) =~= Seq::empty());
                entry
            },
        };
        proof {
            lemma_sources(t, key@);
            lemma_sources_put(t, key@, entry);
        }
        let _ = self.sources.insert(key, entry);
    }

    /// The source with a name.
    pub fn get(&self, key: &str) -> (r: Option<&SkillAssetSource>)
        ensures
            distinct(self@),
            match r {
                Some(s) => lookup(self@, key@) == Some(s@),
                None => lookup(self@, key@) is None,
            },
    {
        let r = self.sources.get(key);
        proof {
            lemma_sources(self.sources@, key@);
        }
        r
    }

    /// The names of the sources that have changed since they were last loaded, in order.
    pub fn dirty_keys(&self) -> (r: Vec<String>)
        ensures
            distinct(self@),
            crate::def::strings_view(r@) == dirty_among(self@, self@.len()),
    {
        let mut out: Vec<String> = Vec::new();
        assert(crate::def::strings_view(out@) =~= Seq::empty());
        let n: usize = self.sources.len();
        let mut i: usize = 0;
        while i < n
            invariant
                i <= n,
                n == self.sources@.len(),
                crate::def::strings_view(out@) == dirty_among(self@, i as nat),
            decreases n - i,
        {
            let s = self.sources.value(i);
            assert(self@[i as int] == (self.sources@[i as int].0, s@));
            if s.version != s.applied_version {
                let ghost before = out@;
                let key = self.sources.key(i).clone();
                out.push(key);
                assert(crate::def::strings_view(out@) =~= crate::def::strings_view(before).push(
                    key@,
                ));
            }
            i = i + 1;
        }
        out
    }

    /// Loads a source whose text has been parsed: its skills go to the library, and those that it
    /// no longer has leave it. A question leaves everything as it was.
    pub fn compile_dirty_skill_asset(
        &mut self,
        key: &str,
        parsed: &Result<Vec<SkillDef>, SkillError>,
        registry: &SkillRegistry,
        library: &mut SkillLibrary,
        numbers: &NumberTable,
    ) -> (r: Result<ReloadOutcome, SkillError>)
        ensures
            distinct(old(self)@),
            distinct(final(self)@),
            match lookup(old(self)@, key@) {
                None => r matches Ok(ReloadOutcome::Missing) && final(self)@ == old(self)@
                    && *final(library) == *old(library),
                Some(s) => match source_compiled(
                    parsed_view(*parsed),
                    registry@,
                    old(library)@,
                    numbers@,
                ) {
                    Err(q) => r matches Err(e) && e@ == ErrorView::Unanswered(q) && final(self)@
                        == old(self)@ && *final(library) == *old(library),
                    Ok((outcome, l)) => {
                        let (after, left) = loaded(s, outcome, l);
                        &&& final(self)@ == put(old(self)@, key@, after)
                        &&& final(library)@ == left
                        &&& match outcome {
                            Ok(skills) => r matches Ok(ReloadOutcome::Reloaded(x)) && x.key@ == key@
                                && ids_view(x.skills@) == skills,
                            Err(e) => r matches Ok(ReloadOutcome::Failed(x)) && x.key@ == key@
                                && x.error@ == e,
                        }
                    },
                },
            },
    {
        let ghost t = self.sources@;
        let mut entry = match self.sources.get(key) {
            Some(s) => s.clone(),
            None => {
                proof {
                    lemma_sources(t, key@);
                }
                return Ok(ReloadOutcome::Missing);
            },
        };
        proof {
            lemma_sources(t, key@);
        }
        let outcome = match compile_asset_source(parsed, registry, library, numbers) {
            Ok(o) => o,
            Err(e) => return Err(e),
        };
        entry.applied_version = entry.version;
        match outcome {
            Ok(skills) => {
                remove_stale(&entry.last_skills, &skills, library);
                entry.last_skills = copy_ids(&skills);
                entry.last_error = None;
                proof {
                    lemma_sources_put(t, key@, entry);
                }
                let _ = self.sources.insert(key.to_owned(), entry);
                Ok(ReloadOutcome::Reloaded(SkillAssetReloaded { key: key.to_owned(), skills }))
            },
            Err(error) => {
                entry.last_error = Some(error.clone());
                proof {
                    lemma_sources_put(t, key@, entry);
                }
                let _ = self.sources.insert(key.to_owned(), entry);
                Ok(ReloadOutcome::Failed(SkillAssetReloadFailed { key: key.to_owned(), error }))
            },
        }
    }
}

/// Loads the sources that have changed, in the given order; sources that have not changed are left
/// alone. After a question the sources that were loaded before it are done, and another call goes on
/// with the others.
pub fn compile_dirty_skill_assets(
    parsed: &Vec<ParsedSource>,
    sources: &mut SkillAssetSources,
    registry: &SkillRegistry,
    library: &mut SkillLibrary,
    outcomes: &mut Vec<ReloadOutcome>,
    numbers: &NumberTable,
) -> (r: Result<(), SkillError>)
    ensures
        distinct(old(sources)@),
        distinct(final(sources)@),
        ({
            let (after, q) = reloading(
                parsed_sources_view(parsed@),
                0,
                ReloadingView {
                    sources: old(sources)@,
                    library: old(library)@,
                    outcomes: reloads_view(old(outcomes)@),
                },
                registry@,
                numbers@,
            );
            &&& final(sources)@ == after.sources
            &&& final(library)@ == after.library
            &&& reloads_view(final(outcomes)@) == after.outcomes
            &&& match q {
                None => r is Ok,
                Some(q) => r matches Err(e) && e@ == ErrorView::Unanswered(q),
            }
        }),
{
    proof {
        use_type_invariant(&sources.sources);
        lemma_sources(sources.sources@, Seq::empty());
    }
    let ghost all = parsed_sources_view(parsed@);
    let ghost start = ReloadingView {
        sources: sources@,
        library: library@,
        outcomes: reloads_view(outcomes@),
    };
    let n: usize = parsed.len();
    let mut i: usize = 0;
    while i < n
        invariant
            i <= n,
            n == parsed@.len(),
            distinct(old(sources)@),
            distinct(sources@),
            all == parsed_sources_view(parsed@),
            start == (ReloadingView {
                sources: old(sources)@,
                library: old(library)@,
                outcomes: reloads_view(old(outcomes)@),
            }),
            reloading(all, 0, start, registry@, numbers@) == reloading(
                all,
                i as int,
                ReloadingView {
                    sources: sources@,
                    library: library@,
                    outcomes: reloads_view(outcomes@),
                },
                registry@,
                numbers@,
            ),
        decreases n - i,
    {
        let p = &parsed[i];
        assert(all[i as int] == (p.key@, parsed_view(p.parsed)));
        let changed: bool = match sources.get(p.key.as_str()) {
            Some(s) => s.version != s.applied_version,
            None => false,
        };
        if changed {
            let ghost before = outcomes@;
            match sources.compile_dirty_skill_asset(
                p.key.as_str(),
                &p.parsed,
                registry,
                library,
                numbers,
            ) {
                Ok(outcome) => {
                    outcomes.push(outcome);
                    assert(reloads_view(outcomes@) =~= reloads_view(before).push(outcome@));
                },
                Err(e) => return Err(e),
            }
        }
        i = i + 1;
    }
    Ok(())
}

/// A law of reloading: a source that was loaded is clean, and stays so until it gets a new text.
pub proof fn law_loaded_source_is_clean(
    s: SourceView,
    outcome: Result<Seq<Seq<char>>, ErrorView>,
    library: LibraryView,
    text: Seq<char>,
)
    ensures
        !is_dirty(loaded(s, outcome, library).0),
        s.version < u64::MAX ==> is_dirty(source_set(Some(loaded(s, outcome, library).0), text)),
{
}

/// The names of the sources among the first `k` that have changed: a source is named if and only
/// if it has changed.
proof fn lemma_dirty_among(t: Seq<(Seq<char>, SourceView)>, k: nat, key: Seq<char>)
    requires
        k <= t.len(),
    ensures
        dirty_among(t, k).contains(key) <==> exists|i: int|
            0 <= i < k && (#[trigger] t[i]).0 == key && is_dirty(t[i].1),
    decreases k,
{
    if k > 0 {
        let before = dirty_among(t, (k - 1) as nat);
        lemma_dirty_among(t, (k - 1) as nat, key);
        if before.contains(key) {
            let i = choose|i: int|
                0 <= i < k - 1 && (#[trigger] t[i]).0 == key && is_dirty(t[i].1);
            assert(0 <= i < k && t[i].0 == key && is_dirty(t[i].1));
        }
        if is_dirty(t[k - 1].1) {
            let after = before.push(t[k - 1].0);
            assert(after.last() == t[k - 1].0);
            if before.contains(key) {
                let j = before.index_of(key);
                assert(after[j] == key);
            }
            if after.contains(key) && !before.contains(key) {
                let j = after.index_of(key);
                if j < before.len() {
                    assert(before[j] == key);
                }
            }
        }
    }
}

/// A law of sources: a text that was set is what is read, it waits to be loaded, even if it is the
/// text from before, and the other sources are as they were.
pub proof fn law_source_is_read_back(
    t: Seq<(Seq<char>, SourceView)>,
    key: Seq<char>,
    text: Seq<char>,
    other: Seq<char>,
)
    requires
        distinct(t),
        lookup(t, key) matches Some(s) ==> s.applied_version <= s.version < u64::MAX,
    ensures
        ({
            let after = put(t, key, source_set(lookup(t, key), text));
            &&& lookup(after, key) matches Some(s) && s.source == text
            &&& dirty_among(after, after.len()).contains(key)
            &&& other != key ==> lookup(after, other) == lookup(t, other)
            &&& forall|i: int| 0 <= i < t.len() ==> (#[trigger] after[i]).0 == t[i].0
        }),
{
    let set = source_set(lookup(t, key), text);
    let after = put(t, key, set);
    law_put_then_lookup(t, key, set, other);
    lemma_dirty_among(after, after.len(), key);
    if has_key(t, key) {
        let i = key_index(t, key);
        assert(0 <= i < t.len() && t[i].0 == key);
        assert(after[i] == (key, set));
    } else {
        assert(after[t.len() as int] == (key, set));
    }
}

/// From the `k`-th source on, a source that is clean or is not named stays as it is.
proof fn lemma_reloading_spares(
    parsed: Seq<ParsedView>,
    k: int,
    r: ReloadingView,
    registry: RegistryView,
    n: NumbersView,
    key: Seq<char>,
)
    requires
        0 <= k <= parsed.len(),
        distinct(r.sources),
        (lookup(r.sources, key) matches Some(s) && is_dirty(s)) ==> forall|j: int|
            k <= j < parsed.len() ==> (#[trigger] parsed[j]).0 != key,
    ensures
        lookup(reloading(parsed, k, r, registry, n).0.sources, key) == lookup(r.sources, key),
    decreases parsed.len() - k,
{
    if k < parsed.len() {
        let (name, text) = parsed[k];
        match lookup(r.sources, name) {
            Some(s) if is_dirty(s) => match source_compiled(text, registry, r.library, n) {
                Err(_) => {},
                Ok((outcome, l)) => {
                    let (after, left) = loaded(s, outcome, l);
                    let next = ReloadingView {
                        sources: put(r.sources, name, after),
                        library: left,
                        outcomes: r.outcomes.push(reload_of(name, outcome)),
                    };
                    lemma_distinct(r.sources, name, after);
                    law_put_then_lookup(r.sources, name, after, key);
                    lemma_reloading_spares(parsed, k + 1, next, registry, n, key);
                },
            },
            _ => lemma_reloading_spares(parsed, k + 1, r, registry, n, key),
        }
    }
}

/// From the `k`-th source on, none that is named is dirty at the end.
proof fn lemma_reloading_cleans(
    parsed: Seq<ParsedView>,
    k: int,
    r: ReloadingView,
    registry: RegistryView,
    n: NumbersView,
    i: int,
)
    requires
        0 <= k <= i < parsed.len(),
        distinct(r.sources),
        reloading(parsed, k, r, registry, n).1 is None,
    ensures
        lookup(reloading(parsed, k, r, registry, n).0.sources, parsed[i].0) matches Some(s)
            ==> !is_dirty(s),
    decreases parsed.len() - k,
{
    let (name, text) = parsed[k];
    match lookup(r.sources, name) {
        Some(s) if is_dirty(s) => match source_compiled(text, registry, r.library, n) {
            Err(_) => {},
            Ok((outcome, l)) => {
                let (after, left) = loaded(s, outcome, l);
                let next = ReloadingView {
                    sources: put(r.sources, name, after),
                    library: left,
                    outcomes: r.outcomes.push(reload_of(name, outcome)),
                };
                lemma_distinct(r.sources, name, after);
                law_put_then_lookup(r.sources, name, after, name);
                if i == k {
                    lemma_reloading_spares(parsed, k + 1, next, registry, n, name);
                } else {
                    lemma_reloading_cleans(parsed, k + 1, next, registry, n, i);
                }
            },
        },
        _ => if i == k {
            lemma_reloading_spares(parsed, k + 1, r, registry, n, name);
        } else {
            lemma_reloading_cleans(parsed, k + 1, r, registry, n, i);
        },
    }
}

/// A law of reloading: a pass that no question stopped leaves none of the named sources dirty, and
/// whatever stopped it, sources that were clean or were not named are as before.
pub proof fn law_pass_leaves_sources_clean(
    parsed: Seq<ParsedView>,
    r: ReloadingView,
    registry: RegistryView,
    n: NumbersView,
    key: Seq<char>,
)
    requires
        distinct(r.sources),
    ensures
        ({
            let (after, q) = reloading(parsed, 0, r, registry, n);
            let named = exists|i: int| 0 <= i < parsed.len() && (#[trigger] parsed[i]).0 == key;
            &&& q is None && named ==> (lookup(after.sources, key) matches Some(s) ==> !is_dirty(
                s,
            ))
            &&& !named || !(lookup(r.sources, key) matches Some(s) && is_dirty(s)) ==> lookup(
                after.sources,
                key,
            ) == lookup(r.sources, key)
        }),
{
    let (after, q) = reloading(parsed, 0, r, registry, n);
    let named = exists|i: int| 0 <= i < parsed.len() && (#[trigger] parsed[i]).0 == key;
    if q is None && named {
        let i = choose|i: int| 0 <= i < parsed.len() && (#[trigger] parsed[i]).0 == key;
        lemma_reloading_cleans(parsed, 0, r, registry, n, i);
    }
    if !named || !(lookup(r.sources, key) matches Some(s) && is_dirty(s)) {
        lemma_reloading_spares(parsed, 0, r, registry, n, key);
    }
}

/// A pass keeps names different and adds none.
proof fn lemma_reloading_keeps_names(
    parsed: Seq<ParsedView>,
    k: int,
    r: ReloadingView,
    registry: RegistryView,
    n: NumbersView,
)
    requires
        0 <= k,
        distinct(r.sources),
    ensures
        ({
            let after = reloading(parsed, k, r, registry, n).0.sources;
            &&& distinct(after)
            &&& after.len() == r.sources.len()
            &&& forall|i: int| 0 <= i < after.len() ==> (#[trigger] after[i]).0 == r.sources[i].0
        }),
    decreases parsed.len() - k,
{
    if k < parsed.len() {
        let (name, text) = parsed[k];
        match lookup(r.sources, name) {
            Some(s) if is_dirty(s) => match source_compiled(text, registry, r.library, n) {
                Err(_) => {},
                Ok((outcome, l)) => {
                    let (after, left) = loaded(s, outcome, l);
                    let next = ReloadingView {
                        sources: put(r.sources, name, after),
                        library: left,
                        outcomes: r.outcomes.push(reload_of(name, outcome)),
                    };
                    lemma_distinct(r.sources, name, after);
                    let i = key_index(r.sources, name);
                    assert(0 <= i < r.sources.len() && r.sources[i].0 == name);
                    lemma_reloading_keeps_names(parsed, k + 1, next, registry, n);
                },
            },
            _ => lemma_reloading_keeps_names(parsed, k + 1, r, registry, n),
        }
    }
}

/// A law of reloading: a pass over all sources that have changed, which no question stopped, leaves
/// nothing to load.
pub proof fn law_pass_leaves_nothing_dirty(
    parsed: Seq<ParsedView>,
    r: ReloadingView,
    registry: RegistryView,
    n: NumbersView,
)
    requires
        distinct(r.sources),
        forall|key: Seq<char>| #[trigger]
            dirty_among(r.sources, r.sources.len()).contains(key) ==> exists|i: int|
                0 <= i < parsed.len() && (#[trigger] parsed[i]).0 == key,
        reloading(parsed, 0, r, registry, n).1 is None,
    ensures
        ({
            let after = reloading(parsed, 0, r, registry, n).0.sources;
            dirty_among(after, after.len()) == Seq::<Seq<char>>::empty()
        }),
{
    let after = reloading(parsed, 0, r, registry, n).0.sources;
    let left = dirty_among(after, after.len());
    lemma_reloading_keeps_names(parsed, 0, r, registry, n);
    if left.len() > 0 {
        let key = left[0];
        assert(left.contains(key));
        lemma_dirty_among(after, after.len(), key);
        let i = choose|i: int|
            0 <= i < after.len() && (#[trigger] after[i]).0 == key && is_dirty(after[i].1);
        lemma_found(after, i);
        lemma_found(r.sources, i);
        lemma_dirty_among(r.sources, r.sources.len(), key);
        law_pass_leaves_sources_clean(parsed, r, registry, n, key);
        let named = exists|j: int| 0 <= j < parsed.len() && (#[trigger] parsed[j]).0 == key;
        assert(r.sources[i].0 == key);
        if !named {
            assert(is_dirty(r.sources[i].1));
            assert(dirty_among(r.sources, r.sources.len()).contains(key));
        }
    }
    assert(left =~= Seq::<Seq<char>>::empty());
}

/// What is reported of a source is what became of it: the skills that it now has, or the error,
/// with the skills from before.
pub open spec fn reported(
    report: ReloadView,
    key: Seq<char>,
    before: SourceView,
    after: SourceView,
) -> bool {
    &&& after.source == before.source
    &&& after.version == before.version
    &&& after.applied_version == before.version
    &&& match report {
        ReloadView::Reloaded { key: k, skills } => k == key && after.last_skills == skills
            && after.last_error is None,
        ReloadView::Failed { key: k, error } => k == key && after.last_skills == before.last_skills
            && after.last_error == Some(error),
        ReloadView::Missing => false,
    }
}

/// The sources from the `k`-th on have changed, and none is named twice.
pub open spec fn all_waiting(
    parsed: Seq<ParsedView>,
    k: int,
    sources: Seq<(Seq<char>, SourceView)>,
) -> bool {
    &&& forall|i: int|
        k <= i < parsed.len() ==> (lookup(sources, (#[trigger] parsed[i]).0) matches Some(s)
            && is_dirty(s))
    &&& forall|i: int, j: int|
        k <= i < parsed.len() && k <= j < parsed.len() && (#[trigger] parsed[i]).0 == (
        #[trigger] parsed[j]).0 ==> i == j
}

proof fn lemma_pass_reports(
    parsed: Seq<ParsedView>,
    k: int,
    r: ReloadingView,
    registry: RegistryView,
    n: NumbersView,
)
    requires
        0 <= k <= parsed.len(),
        distinct(r.sources),
        all_waiting(parsed, k, r.sources),
        reloading(parsed, k, r, registry, n).1 is None,
    ensures
        ({
            let after = reloading(parsed, k, r, registry, n).0;
            let done = r.outcomes.len();
            &&& after.outcomes.len() == done + parsed.len() - k
            &&& forall|i: int| 0 <= i < done ==> #[trigger] after.outcomes[i] == r.outcomes[i]
            &&& forall|i: int|
                k <= i < parsed.len() ==> (lookup(
                    after.sources,
                    (#[trigger] parsed[i]).0,
                ) matches Some(s) && reported(
                    after.outcomes[done + i - k],
                    parsed[i].0,
                    lookup(r.sources, parsed[i].0)->0,
                    s,
                ))
        }),
    decreases parsed.len() - k,
{
    if k < parsed.len() {
        let (name, text) = parsed[k];
        let s = lookup(r.sources, name)->0;
        assert(parsed[k].0 == name);
        let (outcome, l) = source_compiled(text, registry, r.library, n)->Ok_0;
        let (now, left) = loaded(s, outcome, l);
        let next = ReloadingView {
            sources: put(r.sources, name, now),
            library: left,
            outcomes: r.outcomes.push(reload_of(name, outcome)),
        };
        lemma_distinct(r.sources, name, now);
        law_put_then_lookup(r.sources, name, now, name);
        assert forall|i: int| k + 1 <= i < parsed.len() implies lookup(
            next.sources,
            (#[trigger] parsed[i]).0,
        ) == lookup(r.sources, parsed[i].0) by {
            law_put_then_lookup(r.sources, name, now, parsed[i].0);
        }
        lemma_pass_reports(parsed, k + 1, next, registry, n);
        lemma_reloading_spares(parsed, k + 1, next, registry, n, name);
        let after = reloading(parsed, k, r, registry, n).0;
        let done = r.outcomes.len() as int;
        assert(after.outcomes[done] == next.outcomes[done]);
        assert forall|i: int| 0 <= i < done implies #[trigger] after.outcomes[i]
            == r.outcomes[i] by {
            assert(after.outcomes[i] == next.outcomes[i]);
        }
    }
}

/// A law of reloading: a pass over sources that have changed, which no question stopped, reports
/// each of them once, in order, as what became of it.
pub proof fn law_pass_reports_each_change(
    parsed: Seq<ParsedView>,
    r: ReloadingView,
    registry: RegistryView,
    n: NumbersView,
)
    requires
        distinct(r.sources),
        all_waiting(parsed, 0, r.sources),
        reloading(parsed, 0, r, registry, n).1 is None,
    ensures
        ({
            let after = reloading(parsed, 0, r, registry, n).0;
            let done = r.outcomes.len();
            &&& after.outcomes.len() == done + parsed.len()
            &&& forall|i: int| 0 <= i < done ==> #[trigger] after.outcomes[i] == r.outcomes[i]
            &&& forall|i: int|
                0 <= i < parsed.len() ==> (lookup(
                    after.sources,
                    (#[trigger] parsed[i]).0,
                ) matches Some(s) && reported(
                    after.outcomes[done + i],
                    parsed[i].0,
                    lookup(r.sources, parsed[i].0)->0,
                    s,
                ))
        }),
{
    lemma_pass_reports(parsed, 0, r, registry, n);
}

proof fn lemma_stale_gone(
    l: LibraryView,
    old_ids: Seq<Seq<char>>,
    k: nat,
    kept: Seq<Seq<char>>,
    i: int,
)
    requires
        0 <= i < k <= old_ids.len(),
        !kept.contains(old_ids[i]),
    ensures
        !stale_removed(l, old_ids, k, kept).compiled.contains_key(old_ids[i]),
        !stale_removed(l, old_ids, k, kept).entities.contains_key(old_ids[i]),
    decreases k,
{
    if i < k - 1 {
        lemma_stale_gone(l, old_ids, (k - 1) as nat, kept, i);
    }
}

/// A law of reloading: a skill that a source no longer has cannot be cast.
pub proof fn law_dropped_skills_leave(
    s: SourceView,
    skills: Seq<Seq<char>>,
    library: LibraryView,
    id: Seq<char>,
)
    requires
        s.last_skills.contains(id),
        !skills.contains(id),
    ensures
        !loaded(s, Ok(skills), library).1.compiled.contains_key(id),
        !loaded(s, Ok(skills), library).1.entities.contains_key(id),
{
    let i = s.last_skills.index_of(id);
    lemma_stale_gone(library, s.last_skills, s.last_skills.len(), skills, i);
}

/// A law of reloading: a skill that turns out to be invalid cannot be cast, and the reason is kept.
pub proof fn law_invalid_skill_is_noted(
    parsed: Result<Seq<DefView>, ErrorView>,
    registry: RegistryView,
    library: LibraryView,
    n: NumbersView,
)
    requires
        parsed is Ok,
        source_compiled(parsed, registry, library, n) is Ok,
        source_compiled(parsed, registry, library, n)->Ok_0.0 is Err,
    ensures
        ({
            let id = batch(parsed->Ok_0, 0, Seq::empty(), registry, n)->id;
            let (outcome, l) = source_compiled(parsed, registry, library, n)->Ok_0;
            &&& !l.compiled.contains_key(id)
            &&& l.invalid.contains_key(id)
            &&& l.invalid[id] == outcome->Err_0
        }),
{
}

} // verus!
