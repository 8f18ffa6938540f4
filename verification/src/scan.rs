//! Loading a directory of skill files into the editor.
use crate::collect::{collected, lemma_first_failure};
use crate::def::{SkillCompiled, SkillDef};
use crate::editor::{
    cache_view, desk, files_view, no_report, read_view, text_view, validate_source, validated,
    DeskView, EditorDiagnostics, EditorView, FileView, SkillEditorState, SkillFileEntry,
    ValidationResult, ValidationView,
};
use crate::error::{ErrorView, SkillError};
use crate::library::{compiled_inserted, marked_invalid, SkillLibrary};
use crate::naming::{is_skill_file, skill_suffix, text_before, text_le};
use crate::number::{NumberTable, NumbersView, QuestionView};
use crate::registry::{RegistryView, SkillRegistry};
use crate::table::{lemma_table_map, KeyedMap};
use crate::text::ends_with;
use vstd::prelude::*;

verus! {

/// Something in a directory.
#[derive(Debug)]
pub struct SkillDirEntry {
    pub path: String,
    /// The last part of the path, if it is a text.
    pub name: Option<String>,
    pub is_file: bool,
}

/// A skill file stands behind another, or has the same name.
pub open spec fn file_le(a: FileView, b: FileView) -> bool {
    text_le(a.name->0, b.name->0)
}

/// The files with one more, in order of their names.
pub open spec fn file_in(l: Seq<FileView>, x: FileView) -> Seq<FileView>
    decreases l.len(),
{
    if l.len() == 0 || file_le(l.last(), x) {
        l.push(x)
    } else {
        file_in(l.drop_last(), x).push(l.last())
    }
}

/// Something in a directory is a skill file.
pub open spec fn holds_skill(e: SkillDirEntry) -> bool {
    e.is_file && e.name is Some && ends_with(e.name->0@, skill_suffix())
}

/// The skill files among the first `k` things in a directory, in order of their names.
pub open spec fn scanned(s: Seq<SkillDirEntry>, k: nat) -> Seq<FileView>
    decreases k,
{
    if 0 < k <= s.len() {
        let before = scanned(s, (k - 1) as nat);
        let e = s[k - 1];
        if holds_skill(e) {
            file_in(
                before,
                FileView { path: e.path@, name: text_view(e.name), report: no_report() },
            )
        } else {
            before
        }
    } else {
        Seq::empty()
    }
}

spec fn all_named(l: Seq<SkillFileEntry>) -> bool {
    forall|i: int| 0 <= i < l.len() ==> (#[trigger] l[i]).name is Some
}

fn comes_before(a: &SkillFileEntry, b: &SkillFileEntry) -> (r: bool)
    requires
        a.name is Some,
        b.name is Some,
    ensures
        r == file_le(a@, b@),
{
    match (&a.name, &b.name) {
        (Some(x), Some(y)) => text_before(x.as_str(), y.as_str()),
        _ => vstd::pervasive::unreached(),
    }
}

fn insert_file(l: &mut Vec<SkillFileEntry>, x: SkillFileEntry)
    requires
        all_named(old(l)@),
        x.name is Some,
    ensures
        files_view(final(l)@) == file_in(files_view(old(l)@), x@),
        all_named(final(l)@),
{
    let ghost before = l@;
    let ghost s = files_view(before);
    let mut i: usize = l.len();
    let ghost mut tail = Seq::<FileView>::empty();
    assert(s.subrange(0, i as int) =~= s);
    assert(file_in(s, x@) =~= file_in(s.subrange(0, i as int), x@) + tail);
    loop
        invariant
            i <= l@.len(),
            l@ == before,
            s == files_view(before),
            all_named(before),
            x.name is Some,
            tail == s.subrange(i as int, s.len() as int),
            file_in(s, x@) == file_in(s.subrange(0, i as int), x@) + tail,
        ensures
            i <= l@.len(),
            l@ == before,
            tail == s.subrange(i as int, s.len() as int),
            file_in(s, x@) == s.subrange(0, i as int).push(x@) + tail,
        decreases i,
    {
        if i == 0 {
            break;
        }
        assert(s.subrange(0, i as int).last() == before[i - 1]@);
        let stays: bool = comes_before(&l[i - 1], &x);
        if stays {
            break;
        }
        proof {
            let p = s.subrange(0, i as int);
            assert(p.drop_last() =~= s.subrange(0, i - 1));
            let longer = s.subrange(i - 1, s.len() as int);
            assert(file_in(p.drop_last(), x@).push(p.last()) + tail =~= file_in(p.drop_last(), x@)
                + longer);
            tail = longer;
        }
        i = i - 1;
    }
    l.insert(i, x);
    assert(files_view(l@) =~= s.subrange(0, i as int).push(x@) + tail);
    assert forall|j: int| 0 <= j < l@.len() implies (#[trigger] l@[j]).name is Some by {
        if j < i {
            assert(l@[j] == before[j]);
        } else if j > i {
            assert(l@[j] == before[j - 1]);
        }
    }
}

/// The skill files in a directory, in order of their names.
pub fn scan_skill_files(entries: &Vec<SkillDirEntry>) -> (r: Vec<SkillFileEntry>)
    ensures
        files_view(r@) == scanned(entries@, entries@.len()),
{
    let mut files: Vec<SkillFileEntry> = Vec::new();
    assert(files_view(files@) =~= Seq::empty());
    let n: usize = entries.len();
    let mut i: usize = 0;
    while i < n
        invariant
            i <= n,
            n == entries@.len(),
            all_named(files@),
            files_view(files@) == scanned(entries@, i as nat),
        decreases n - i,
    {
        let e = &entries[i];
        if e.is_file {
            if let Some(name) = &e.name {
                if is_skill_file(name.as_str()) {
                    insert_file(
                        &mut files,
                        SkillFileEntry::from_path(e.path.clone(), Some(name.clone())),
                    );
                }
            }
        }
        i = i + 1;
    }
    files
}

/// The files are in order of their names.
pub open spec fn in_order(l: Seq<FileView>) -> bool {
    forall|i: int| 0 <= i < l.len() - 1 ==> file_le(#[trigger] l[i], l[i + 1])
}

proof fn lemma_char_order(a: char, b: char)
    ensures
        a == b || (a as u32) < (b as u32) || (b as u32) < (a as u32),
{
}

proof fn lemma_text_total(a: Seq<char>, b: Seq<char>)
    ensures
        text_le(a, b) || text_le(b, a),
    decreases a.len(),
{
    if a.len() > 0 && b.len() > 0 && a[0] == b[0] {
        lemma_text_total(a.subrange(1, a.len() as int), b.subrange(1, b.len() as int));
    } else if a.len() > 0 && b.len() > 0 {
        lemma_char_order(a[0], b[0]);
    }
}

proof fn lemma_file_in_order(l: Seq<FileView>, x: FileView)
    requires
        in_order(l),
    ensures
        in_order(file_in(l, x)),
        file_in(l, x).len() == l.len() + 1,
        file_in(l, x).last() == x || (l.len() > 0 && file_in(l, x).last() == l.last()),
    decreases l.len(),
{
    if l.len() > 0 && !file_le(l.last(), x) {
        let p = l.drop_last();
        lemma_file_in_order(p, x);
        let q = file_in(p, x);
        lemma_text_total(l.last().name->0, x.name->0);
        assert forall|i: int| 0 <= i < q.push(l.last()).len() - 1 implies file_le(
            #[trigger] q.push(l.last())[i],
            q.push(l.last())[i + 1],
        ) by {
            if i < q.len() - 1 {
                assert(file_le(q[i], q[i + 1]));
            } else if q.last() != x {
                assert(p.len() > 0);
                assert(l[l.len() - 2] == p.last());
                assert(file_le(l[l.len() - 2], l[l.len() - 2 + 1]));
            }
        }
    }
}

/// The law of scanning: the files come in order of their names.
pub proof fn law_scanned_in_order(s: Seq<SkillDirEntry>, k: nat)
    requires
        k <= s.len(),
    ensures
        in_order(scanned(s, k)),
    decreases k,
{
    if k > 0 {
        law_scanned_in_order(s, (k - 1) as nat);
        let e = s[k - 1];
        if holds_skill(e) {
            lemma_file_in_order(
                scanned(s, (k - 1) as nat),
                FileView { path: e.path@, name: text_view(e.name), report: no_report() },
            );
        }
    }
}

/// What comes of parsing several sources.
pub open spec fn reads_view(s: Seq<Result<SkillDef, String>>, registry: RegistryView, n: NumbersView) -> Seq<
    Result<ValidationView, QuestionView>,
> {
    Seq::new(s.len(), |i: int| validated(read_view(s[i]), registry, n))
}

/// The desk after a file was found.
pub open spec fn file_found(d: DeskView, v: ValidationView) -> DeskView {
    match v.compiled {
        Some(c) => DeskView {
            editor: EditorView {
                compiled_cache: d.editor.compiled_cache.insert(c.id, c),
                ..d.editor
            },
            library: compiled_inserted(d.library, c),
        },
        None => match (v.report.skill_id, v.report.compile_fault) {
            (Some(id), Some(e)) => DeskView {
                editor: d.editor,
                library: marked_invalid(d.library, id, e),
            },
            _ => d,
        },
    }
}

/// The desk after the first `k` files were found.
pub open spec fn files_found(d: DeskView, vs: Seq<ValidationView>, k: nat) -> DeskView
    decreases k,
{
    if 0 < k <= vs.len() {
        file_found(files_found(d, vs, (k - 1) as nat), vs[k - 1])
    } else {
        d
    }
}

/// The files with what they come to.
pub open spec fn files_reported(files: Seq<FileView>, vs: Seq<ValidationView>) -> Seq<FileView> {
    Seq::new(files.len(), |i: int| FileView { report: vs[i].report, ..files[i] })
}

/// One of the files has the path.
pub open spec fn has_file(files: Seq<FileView>, path: Seq<char>) -> bool {
    exists|i: int| 0 <= i < files.len() && (#[trigger] files[i]).path == path
}

/// The file to open: the one that was open, if it is still there, or else the first.
pub open spec fn file_to_open(files: Seq<FileView>, current: Option<Seq<char>>) -> Option<Seq<char>> {
    match current {
        Some(p) if has_file(files, p) => Some(p),
        _ => if files.len() > 0 {
            Some(files[0].path)
        } else {
            None
        },
    }
}

/// The desk after a directory was loaded, before its file is opened.
pub open spec fn dir_loaded(d: DeskView, files: Seq<FileView>, vs: Seq<ValidationView>) -> DeskView {
    let found = files_found(
        DeskView {
            editor: EditorView {
                files: files_reported(files, vs),
                compiled_cache: Map::empty(),
                diagnostics: no_report(),
                ..d.editor
            },
            library: d.library,
        },
        vs,
        vs.len(),
    );
    match file_to_open(files, d.editor.current_file) {
        Some(p) => DeskView {
            editor: EditorView { current_file: Some(p), ..found.editor },
            library: found.library,
        },
        None => DeskView {
            editor: EditorView {
                current_file: None,
                source: Seq::empty(),
                dirty: false,
                current_def: None,
                preview_skill_id: None,
                ..found.editor
            },
            library: found.library,
        },
    }
}

spec fn results_view(s: Seq<ValidationResult>) -> Seq<ValidationView> {
    Seq::new(s.len(), |i: int| s[i]@)
}

fn validate_all(
    parsed: &Vec<Result<SkillDef, String>>,
    registry: &SkillRegistry,
    numbers: &NumberTable,
) -> (r: Result<Vec<ValidationResult>, SkillError>)
    ensures
        match collected(reads_view(parsed@, registry@, numbers@)) {
            Ok(vs) => r matches Ok(l) && results_view(l@) == vs,
            Err(q) => r matches Err(e) && e@ == ErrorView::Unanswered(q),
        },
{
    let ghost parts = reads_view(parsed@, registry@, numbers@);
    let mut out: Vec<ValidationResult> = Vec::new();
    let n: usize = parsed.len();
    let mut i: usize = 0;
    while i < n
        invariant
            i <= n,
            n == parsed@.len(),
            parts == reads_view(parsed@, registry@, numbers@),
            out@.len() == i,
            forall|j: int|
                0 <= j < i ==> (#[trigger] parts[j]) == Ok::<ValidationView, QuestionView>(
                    out@[j]@,
                ),
        decreases n - i,
    {
        match validate_source(&parsed[i], registry, numbers) {
            Ok(v) => out.push(v),
            Err(e) => {
                proof {
                    lemma_first_failure(parts, i as int);
                }
                return Err(e);
            },
        }
        i = i + 1;
    }
    assert(collected(parts)->Ok_0 =~= results_view(out@));
    Ok(out)
}

fn report_files(files: Vec<SkillFileEntry>, vs: &Vec<ValidationResult>) -> (r: Vec<SkillFileEntry>)
    requires
        files@.len() == vs@.len(),
    ensures
        files_view(r@) == files_reported(files_view(files@), results_view(vs@)),
{
    let mut out: Vec<SkillFileEntry> = Vec::new();
    let n: usize = files.len();
    let mut i: usize = 0;
    while i < n
        invariant
            i <= n,
            n == files@.len(),
            n == vs@.len(),
            out@.len() == i,
            forall|j: int|
                0 <= j < i ==> (#[trigger] out@[j])@ == (FileView {
                    report: vs@[j]@.report,
                    ..files@[j]@
                }),
        decreases n - i,
    {
        let (skill_id, parse_error, compile_fault) = vs[i].report();
        let entry = SkillFileEntry {
            path: files[i].path.clone(),
            name: match &files[i].name {
                Some(s) => Some(s.clone()),
                None => None,
            },
            skill_id,
            parse_error,
            compile_fault,
        };
        out.push(entry);
        i = i + 1;
    }
    assert(files_view(out@) =~= files_reported(files_view(files@), results_view(vs@)));
    out
}

fn find_file(files: &Vec<SkillFileEntry>, path: &String) -> (r: bool)
    ensures
        r == has_file(files_view(files@), path@),
{
    let n: usize = files.len();
    let mut i: usize = 0;
    while i < n
        invariant
            i <= n,
            n == files@.len(),
            forall|j: int| 0 <= j < i ==> (#[trigger] files_view(files@)[j]).path != path@,
        decreases n - i,
    {
        assert(files_view(files@)[i as int] == files@[i as int]@);
        if files[i].path == *path {
            return true;
        }
        i = i + 1;
    }
    false
}

impl SkillEditorState {
    fn find_files(&mut self, vs: &Vec<ValidationResult>, library: &mut SkillLibrary)
        ensures
            desk(*final(self), *final(library)) == files_found(
                desk(*old(self), *old(library)),
                results_view(vs@),
                results_view(vs@).len(),
            ),
            final(self).files == old(self).files,
            final(self).current_file == old(self).current_file,
    {
        let ghost start = desk(*self, *library);
        let ghost all = results_view(vs@);
        let n: usize = vs.len();
        let mut i: usize = 0;
        while i < n
            invariant
                i <= n,
                n == vs@.len(),
                all == results_view(vs@),
                desk(*self, *library) == files_found(start, all, i as nat),
                self.files == old(self).files,
                self.current_file == old(self).current_file,
            decreases n - i,
        {
            let ghost sofar = desk(*self, *library);
            assert(all[i as int] == vs@[i as int]@);
            if let Some(c) = vs[i].compiled_skill() {
                library.insert_compiled(c.clone());
                let copy = c.clone();
                let ghost whole = copy;
                let ghost before = self.compiled_cache@;
                let _ = self.compiled_cache.insert(copy.id.0.clone(), copy);
                proof {
                    lemma_table_map(before, whole.id@, whole, |c: SkillCompiled| c@);
                }
                assert(self@ =~= file_found(sofar, all[i as int]).editor);
            } else {
                let (skill_id, _, compile_fault) = vs[i].report();
                if let (Some(id), Some(e)) = (skill_id, compile_fault) {
                    library.mark_invalid(id, e);
                }
            }
            i = i + 1;
        }
    }

    /// Takes over the skill files of a directory, each with what came of parsing it, and says
    /// which file is to be opened. A question leaves everything as it was.
    pub fn load_dir(
        &mut self,
        files: Vec<SkillFileEntry>,
        parsed: &Vec<Result<SkillDef, String>>,
        registry: &SkillRegistry,
        library: &mut SkillLibrary,
        numbers: &NumberTable,
    ) -> (r: Result<Option<String>, SkillError>)
        requires
            files@.len() == parsed@.len(),
        ensures
            match collected(reads_view(parsed@, registry@, numbers@)) {
                Ok(vs) => desk(*final(self), *final(library)) == dir_loaded(
                    desk(*old(self), *old(library)),
                    files_view(files@),
                    vs,
                ) && (r matches Ok(p) && text_view(p) == final(self)@.current_file),
                Err(q) => r matches Err(e) && e@ == ErrorView::Unanswered(q) && *final(self) == *old(
                    self,
                ) && *final(library) == *old(library),
            },
    {
        let ghost start = desk(*self, *library);
        let ghost all = files_view(files@);
        let vs = match validate_all(parsed, registry, numbers) {
            Ok(l) => l,
            Err(e) => return Err(e),
        };
        let stays: bool = match &self.current_file {
            Some(p) => find_file(&files, p),
            None => false,
        };
        let first: Option<String> = if files.len() > 0 {
            Some(files[0].path.clone())
        } else {
            None
        };
        assert(files@.len() > 0 ==> all[0] == files@[0]@);
        self.files = report_files(files, &vs);
        self.compiled_cache = KeyedMap::new();
        self.diagnostics = EditorDiagnostics::new();
        proof {
            assert(cache_view(self.compiled_cache) =~= Map::empty());
            assert(self@ =~= EditorView {
                files: files_reported(all, results_view(vs@)),
                compiled_cache: Map::empty(),
                diagnostics: no_report(),
                ..start.editor
            });
        }
        self.find_files(&vs, library);
        let ghost found = desk(*self, *library);
        if !stays {
            self.current_file = first;
        }
        let open: Option<String> = match &self.current_file {
            Some(p) => Some(p.clone()),
            None => None,
        };
        if open.is_none() {
            self.source = String::new();
            self.dirty = false;
            self.current_def = None;
            self.preview_skill_id = None;
            self.diagnostics = EditorDiagnostics::new();
            proof {
                assert(self@.source =~= Seq::empty());
                lemma_found_keeps(
                    DeskView {
                        editor: EditorView {
                            files: files_reported(all, results_view(vs@)),
                            compiled_cache: Map::empty(),
                            diagnostics: no_report(),
                            ..start.editor
                        },
                        library: start.library,
                    },
                    results_view(vs@),
                    results_view(vs@).len(),
                );
            }
        }
        proof {
            assert(self@ =~= dir_loaded(start, all, results_view(vs@)).editor);
        }
        Ok(open)
    }
}

proof fn lemma_found_keeps(d: DeskView, vs: Seq<ValidationView>, k: nat)
    ensures
        files_found(d, vs, k).editor.diagnostics == d.editor.diagnostics,
    decreases k,
{
    if 0 < k <= vs.len() {
        lemma_found_keeps(d, vs, (k - 1) as nat);
    }
}

} // verus!
