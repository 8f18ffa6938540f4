//! What the editor shows, and what becomes of the skills it works on.
use crate::compile::compiled;
use crate::def::{CompiledView, DefView};
use crate::editor::{
    def_id, file_noted, forgotten, no_report, noted, previewed, revalidated, text_view, validated,
    DeskView, EditorView, FileView, ReportView, ValidationView,
};
use crate::error::ErrorView;
use crate::library::same_for;
use crate::naming::text_le;
use crate::number::{NumbersView, QuestionView};
use crate::registry::RegistryView;
use crate::scan::{
    dir_loaded, file_found, file_in, file_le, files_found, files_reported, has_file, holds_skill,
    scanned, SkillDirEntry,
};
use vstd::prelude::*;

verus! {

/// A law of validating: a source that cannot be read is reported with what the parser says, and
/// there is nothing else to tell of it.
pub proof fn law_unreadable_sources_are_reported(
    t: Seq<char>,
    registry: RegistryView,
    n: NumbersView,
    v: ValidationView,
)
    requires
        validated(Err(t), registry, n) == Ok::<ValidationView, QuestionView>(v),
    ensures
        v.report.parse_error == Some("RON parse failed: "@ + t),
        v.report.skill_id is None,
        v.report.compile_fault is None,
        v.def is None,
        v.compiled is None,
{
}

/// A law of validating: a definition is reported under its identifier, with what it compiles to or
/// with the reason why it does not.
pub proof fn law_definitions_are_reported(
    def: DefView,
    registry: RegistryView,
    n: NumbersView,
    v: ValidationView,
)
    requires
        validated(Ok(def), registry, n) == Ok::<ValidationView, QuestionView>(v),
    ensures
        v.def == Some(def),
        v.report.skill_id == Some(def.id),
        v.report.parse_error is None,
        v.compiled is Some <==> compiled(def, registry, n) is Ok,
        v.report.compile_fault is Some <==> compiled(def, registry, n) is Err,
        v.compiled matches Some(c) ==> compiled(def, registry, n) == Ok::<CompiledView, ErrorView>(
            c,
        ) && c.id == def.id,
        v.report.compile_fault matches Some(e) ==> compiled(def, registry, n) == Err::<
            CompiledView,
            ErrorView,
        >(e),
{
}

/// A law of validating: an answer is missing only where compiling asked for it.
pub proof fn law_validating_answers(
    parsed: Result<DefView, Seq<char>>,
    registry: RegistryView,
    n: NumbersView,
)
    ensures
        validated(parsed, registry, n) is Err <==> parsed is Ok && (compiled(
            parsed->Ok_0,
            registry,
            n,
        ) matches Err(ErrorView::Unanswered(_))),
        validated(parsed, registry, n) matches Err(q) ==> compiled(parsed->Ok_0, registry, n)
            == Err::<CompiledView, ErrorView>(ErrorView::Unanswered(q)),
{
}

/// A law of the editor: a validated source is shown with its report and its definition; the text,
/// the files and whether the text is saved are as before.
pub proof fn law_edits_are_shown(d: DeskView, v: ValidationView)
    ensures
        ({
            let e = revalidated(d, v).editor;
            &&& e.diagnostics == v.report
            &&& e.current_def == v.def
            &&& e.source == d.editor.source
            &&& e.dirty == d.editor.dirty
            &&& e.current_file == d.editor.current_file
            &&& e.files == d.editor.files
            &&& e.last_io_error == d.editor.last_io_error
        }),
{
}

/// A law of the editor: a skill that does not compile, and of which no version did, cannot be cast;
/// the reason is kept, and it is not previewed.
pub proof fn law_broken_skills_are_noted(
    d: DeskView,
    v: ValidationView,
    id: Seq<char>,
    fault: ErrorView,
)
    requires
        v.compiled is None,
        v.report.skill_id == Some(id),
        v.report.compile_fault == Some(fault),
        !d.editor.compiled_cache.contains_key(id),
    ensures
        !revalidated(d, v).library.compiled.contains_key(id),
        revalidated(d, v).library.invalid.contains_pair(id, fault),
        revalidated(d, v).editor.preview_skill_id != Some(id),
        !revalidated(d, v).editor.compiled_cache.contains_key(id),
{
}

/// A law of the editor: skills other than the one in the editor, under its old or its new
/// identifier, are as before.
pub proof fn law_other_skills_stay(d: DeskView, v: ValidationView, other: Seq<char>)
    requires
        v.report.skill_id != Some(other),
        def_id(d.editor.current_def) != Some(other),
        v.compiled matches Some(c) ==> c.id != other,
    ensures
        same_for(d.library, revalidated(d, v).library, other),
        d.editor.compiled_cache.contains_key(other) == revalidated(
            d,
            v,
        ).editor.compiled_cache.contains_key(other),
        d.editor.compiled_cache.contains_key(other) ==> d.editor.compiled_cache[other]
            == revalidated(d, v).editor.compiled_cache[other],
{
}

/// A law of the editor: a skill that got another identifier is nowhere under the old one.
pub proof fn law_renamed_skills_move(d: DeskView, v: ValidationView, before: Seq<char>, after: Seq<char>)
    requires
        def_id(d.editor.current_def) == Some(before),
        v.report.skill_id == Some(after),
        before != after,
        v.compiled matches Some(c) ==> c.id == after,
    ensures
        !revalidated(d, v).library.compiled.contains_key(before),
        !revalidated(d, v).library.invalid.contains_key(before),
        !revalidated(d, v).library.entities.contains_key(before),
        !revalidated(d, v).editor.compiled_cache.contains_key(before),
        revalidated(d, v).editor.preview_skill_id != Some(before),
{
}

/// A law of the editor: a skill that was forgotten is neither in the library nor in the preview;
/// other skills, and the text in the editor, are as before.
pub proof fn law_forgotten_skills_are_gone(d: DeskView, id: Seq<char>, other: Seq<char>)
    requires
        other != id,
    ensures
        ({
            let a = forgotten(d, id);
            &&& !a.library.compiled.contains_key(id)
            &&& !a.library.invalid.contains_key(id)
            &&& !a.library.entities.contains_key(id)
            &&& !a.editor.compiled_cache.contains_key(id)
            &&& a.editor.preview_skill_id != Some(id)
            &&& d.editor.preview_skill_id != Some(id) ==> a.editor.preview_skill_id
                == d.editor.preview_skill_id
            &&& same_for(d.library, a.library, other)
            &&& a.editor.compiled_cache.contains_key(other)
                == d.editor.compiled_cache.contains_key(other)
            &&& d.editor.compiled_cache.contains_key(other) ==> a.editor.compiled_cache[other]
                == d.editor.compiled_cache[other]
            &&& a.editor.source == d.editor.source
            &&& a.editor.dirty == d.editor.dirty
            &&& a.editor.current_file == d.editor.current_file
            &&& a.editor.files == d.editor.files
            &&& a.editor.current_def == d.editor.current_def
            &&& a.editor.diagnostics == d.editor.diagnostics
            &&& a.editor.last_io_error == d.editor.last_io_error
        }),
{
}

/// A law of the preview: the skill that is marked is shown if it was compiled, else the one in the
/// editor if that was, else none.
pub proof fn law_preview(e: EditorView, id: Seq<char>)
    ensures
        e.preview_skill_id == Some(id) && e.compiled_cache.contains_key(id) ==> previewed(e) == Some(
            e.compiled_cache[id],
        ),
        (e.preview_skill_id matches Some(p) ==> !e.compiled_cache.contains_key(p)) && def_id(
            e.current_def,
        ) == Some(id) && e.compiled_cache.contains_key(id) ==> previewed(e) == Some(
            e.compiled_cache[id],
        ),
        (e.preview_skill_id matches Some(p) ==> !e.compiled_cache.contains_key(p)) && (def_id(
            e.current_def,
        ) matches Some(p) ==> !e.compiled_cache.contains_key(p)) ==> previewed(e) is None,
{
}

proof fn lemma_noted(files: Seq<FileView>, path: Seq<char>, report: ReportView, k: int, j: int)
    requires
        0 <= k <= j < files.len(),
        files[j].path == path,
        forall|i: int| k <= i < j ==> (#[trigger] files[i]).path != path,
    ensures
        file_noted(files, path, report, k) == files.update(j, FileView { report, ..files[j] }),
    decreases j - k,
{
    if k < j {
        assert(files[k].path != path);
        lemma_noted(files, path, report, k + 1, j);
    }
}

proof fn lemma_not_noted(files: Seq<FileView>, path: Seq<char>, report: ReportView, k: int)
    requires
        0 <= k <= files.len(),
        forall|i: int| k <= i < files.len() ==> (#[trigger] files[i]).path != path,
    ensures
        file_noted(files, path, report, k) == files,
    decreases files.len() - k,
{
    if k < files.len() {
        assert(files[k].path != path);
        lemma_not_noted(files, path, report, k + 1);
    }
}

/// A law of the editor: the report is noted for the first file with the path of the open one, and
/// for no other; files keep their paths and names.
pub proof fn law_reports_are_noted(e: EditorView, path: Seq<char>, j: int)
    requires
        e.current_file == Some(path),
    ensures
        (forall|i: int| 0 <= i < e.files.len() ==> (#[trigger] e.files[i]).path != path) ==> noted(
            e,
        ).files == e.files,
        0 <= j < e.files.len() && e.files[j].path == path && (forall|i: int|
            0 <= i < j ==> (#[trigger] e.files[i]).path != path) ==> {
            let after = noted(e).files;
            &&& after.len() == e.files.len()
            &&& after[j].report == e.diagnostics
            &&& after[j].path == path
            &&& after[j].name == e.files[j].name
            &&& forall|i: int| 0 <= i < after.len() && i != j ==> #[trigger] after[i] == e.files[i]
        },
        noted(e).source == e.source,
        noted(e).current_def == e.current_def,
        noted(e).diagnostics == e.diagnostics,
        noted(e).current_file == e.current_file,
        noted(e).dirty == e.dirty,
        noted(e).preview_skill_id == e.preview_skill_id,
        noted(e).compiled_cache == e.compiled_cache,
        noted(e).last_io_error == e.last_io_error,
{
    if forall|i: int| 0 <= i < e.files.len() ==> (#[trigger] e.files[i]).path != path {
        lemma_not_noted(e.files, path, e.diagnostics, 0);
    }
    if 0 <= j < e.files.len() && e.files[j].path == path && (forall|i: int|
        0 <= i < j ==> (#[trigger] e.files[i]).path != path) {
        lemma_noted(e.files, path, e.diagnostics, 0, j);
    }
}

/// A law of the editor: without an open file nothing is noted.
pub proof fn law_nothing_to_note(e: EditorView)
    requires
        e.current_file is None,
    ensures
        noted(e) == e,
{
}

/// A law of order: a text comes before itself with something added, and not the other way round;
/// and where two texts differ for the first time, the smaller character comes first.
pub proof fn law_texts_are_ordered(p: Seq<char>, a: char, x: Seq<char>, b: char, y: Seq<char>)
    ensures
        text_le(p, p + x),
        x.len() > 0 ==> !text_le(p + x, p),
        a != b ==> text_le(p + seq![a] + x, p + seq![b] + y) == ((a as u32) < (b as u32)),
    decreases p.len(),
{
    if p.len() > 0 {
        let q = p.subrange(1, p.len() as int);
        law_texts_are_ordered(q, a, x, b, y);
        let l = p + seq![a] + x;
        let r = p + seq![b] + y;
        assert((p + x).subrange(1, (p + x).len() as int) =~= q + x);
        assert(l.subrange(1, l.len() as int) =~= q + seq![a] + x);
        assert(r.subrange(1, r.len() as int) =~= q + seq![b] + y);
        assert(l[0] == p[0] && r[0] == p[0] && (p + x)[0] == p[0]);
    } else {
        assert((p + seq![a] + x)[0] == a);
        assert((p + seq![b] + y)[0] == b);
    }
}

/// What is shown of something in a directory.
pub open spec fn listed(e: SkillDirEntry) -> FileView {
    FileView { path: e.path@, name: text_view(e.name), report: no_report() }
}

/// Something in a directory is a file whose name is some text and then the suffix of skill files.
pub open spec fn is_listed(e: SkillDirEntry) -> bool {
    e.is_file && (e.name matches Some(t) && exists|stem: Seq<char>|
        t@ == #[trigger] (stem + ".skill.ron"@))
}

proof fn lemma_listed(e: SkillDirEntry)
    ensures
        holds_skill(e) == is_listed(e),
{
    if let Some(t) = e.name {
        let p = ".skill.ron"@;
        if holds_skill(e) {
            let stem = t@.subrange(0, t@.len() - p.len());
            assert(t@ =~= stem + p);
        }
        if is_listed(e) {
            let stem = choose|stem: Seq<char>| t@ == #[trigger] (stem + p);
            assert(t@.subrange(t@.len() - p.len(), t@.len() as int) =~= p);
        }
    }
}

proof fn lemma_file_in(l: Seq<FileView>, x: FileView)
    ensures
        file_in(l, x).to_multiset() == l.to_multiset().insert(x),
    decreases l.len(),
{
    broadcast use vstd::seq_lib::group_to_multiset_ensures;

    if !(l.len() == 0 || file_le(l.last(), x)) {
        lemma_file_in(l.drop_last(), x);
        assert(l =~= l.drop_last().push(l.last()));
    }
}

/// A law of scanning: each thing in a directory that is a skill file is listed once, and nothing
/// else is.
pub proof fn law_skill_files_are_listed(s: Seq<SkillDirEntry>)
    ensures
        s.len() == 0 ==> scanned(s, s.len()) == Seq::<FileView>::empty(),
        s.len() > 0 && is_listed(s.last()) ==> scanned(s, s.len()).to_multiset() == scanned(
            s.drop_last(),
            (s.len() - 1) as nat,
        ).to_multiset().insert(listed(s.last())),
        s.len() > 0 && !is_listed(s.last()) ==> scanned(s, s.len()) == scanned(
            s.drop_last(),
            (s.len() - 1) as nat,
        ),
{
    if s.len() > 0 {
        lemma_listed(s.last());
        lemma_scanned_before(s, s.drop_last(), (s.len() - 1) as nat);
        let before = scanned(s, (s.len() - 1) as nat);
        lemma_file_in(before, listed(s.last()));
        assert(s[s.len() - 1] == s.last());
    }
}

proof fn lemma_scanned_before(s: Seq<SkillDirEntry>, t: Seq<SkillDirEntry>, k: nat)
    requires
        k <= t.len() <= s.len(),
        forall|i: int| 0 <= i < t.len() ==> #[trigger] s[i] == t[i],
    ensures
        scanned(s, k) == scanned(t, k),
    decreases k,
{
    if k > 0 {
        lemma_scanned_before(s, t, (k - 1) as nat);
        assert(s[k - 1] == t[k - 1]);
    }
}

/// A law of loading: a file that compiles is in the library and can be previewed; one that does not
/// cannot be cast, with the reason; one that cannot be read changes nothing; and other skills are as
/// before.
pub proof fn law_found_files_count(d: DeskView, v: ValidationView, other: Seq<char>)
    ensures
        v.compiled matches Some(c) ==> {
            let a = file_found(d, v);
            &&& a.library.compiled.contains_pair(c.id, c)
            &&& !a.library.invalid.contains_key(c.id)
            &&& a.editor.compiled_cache.contains_pair(c.id, c)
            &&& other != c.id ==> same_for(d.library, a.library, other)
        },
        v.compiled is None && v.report.skill_id is Some && v.report.compile_fault is Some ==> {
            let a = file_found(d, v);
            let id = v.report.skill_id->0;
            &&& a.library.invalid.contains_pair(id, v.report.compile_fault->0)
            &&& !a.library.compiled.contains_key(id)
            &&& a.editor == d.editor
            &&& other != id ==> same_for(d.library, a.library, other)
        },
        v.compiled is None && (v.report.skill_id is None || v.report.compile_fault is None)
            ==> file_found(d, v) == d,
{
}

proof fn lemma_found_before(d: DeskView, s: Seq<ValidationView>, t: Seq<ValidationView>, k: nat)
    requires
        k <= t.len() <= s.len(),
        forall|i: int| 0 <= i < t.len() ==> #[trigger] s[i] == t[i],
    ensures
        files_found(d, s, k) == files_found(d, t, k),
    decreases k,
{
    if k > 0 {
        lemma_found_before(d, s, t, (k - 1) as nat);
        assert(s[k - 1] == t[k - 1]);
    }
}

/// A law of loading: files are found one behind the other.
pub proof fn law_files_are_found_in_order(
    d: DeskView,
    a: Seq<ValidationView>,
    b: Seq<ValidationView>,
    v: ValidationView,
)
    ensures
        files_found(d, a + b, (a + b).len()) == files_found(
            files_found(d, a, a.len()),
            b,
            b.len(),
        ),
        files_found(d, seq![v], 1) == file_found(d, v),
        files_found(d, Seq::empty(), 0) == d,
    decreases b.len(),
{
    assert(files_found(d, seq![v], 0) == d);
    if b.len() == 0 {
        assert(a + b =~= a);
    } else {
        let c = b.drop_last();
        let k = (a.len() + c.len()) as nat;
        law_files_are_found_in_order(d, a, c, v);
        assert(a + b =~= (a + c).push(b.last()));
        lemma_found_before(d, a + b, a + c, k);
        lemma_found_before(files_found(d, a, a.len()), b, c, c.len());
        assert((a + b)[k as int] == b.last());
    }
}

proof fn lemma_editor_kept(d: DeskView, vs: Seq<ValidationView>, k: nat)
    ensures
        ({
            let e = files_found(d, vs, k).editor;
            &&& e.files == d.editor.files
            &&& e.current_file == d.editor.current_file
            &&& e.source == d.editor.source
            &&& e.dirty == d.editor.dirty
            &&& e.diagnostics == d.editor.diagnostics
            &&& e.current_def == d.editor.current_def
            &&& e.preview_skill_id == d.editor.preview_skill_id
            &&& e.last_io_error == d.editor.last_io_error
        }),
    decreases k,
{
    if 0 < k <= vs.len() {
        lemma_editor_kept(d, vs, (k - 1) as nat);
    }
}

/// A law of loading: the files of a directory are listed with their reports; the file that was open
/// stays open if it is still there, else the first is opened, and without files nothing is.
pub proof fn law_directories_are_listed(
    d: DeskView,
    files: Seq<FileView>,
    vs: Seq<ValidationView>,
    j: int,
)
    requires
        files.len() == vs.len(),
    ensures
        ({
            let e = dir_loaded(d, files, vs).editor;
            &&& e.files.len() == files.len()
            &&& forall|i: int|
                0 <= i < files.len() ==> (#[trigger] e.files[i]).path == files[i].path
                    && e.files[i].name == files[i].name && e.files[i].report == vs[i].report
            &&& e.diagnostics == no_report()
            &&& 0 <= j < files.len() && d.editor.current_file == Some(files[j].path)
                ==> e.current_file == d.editor.current_file
            &&& files.len() > 0 && !(d.editor.current_file matches Some(p) && exists|i: int|
                0 <= i < files.len() && (#[trigger] files[i]).path == p) ==> e.current_file == Some(
                files[0].path,
            )
            &&& files.len() == 0 ==> e.current_file is None && e.source.len() == 0 && !e.dirty
                && e.current_def is None && e.preview_skill_id is None
            &&& files.len() > 0 ==> e.source == d.editor.source && e.dirty == d.editor.dirty
                && e.current_def == d.editor.current_def && e.preview_skill_id
                == d.editor.preview_skill_id
        }),
{
    let start = DeskView {
        editor: EditorView {
            files: files_reported(files, vs),
            compiled_cache: Map::empty(),
            diagnostics: no_report(),
            ..d.editor
        },
        library: d.library,
    };
    lemma_editor_kept(start, vs, vs.len());
    if 0 <= j < files.len() && d.editor.current_file == Some(files[j].path) {
        assert(has_file(files, files[j].path));
    }
}

} // verus!
