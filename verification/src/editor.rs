//! The state of a skill editor.
use crate::compile::{compile_skill, compiled};
use crate::def::{CompiledView, DefView, SkillCompiled, SkillDef};
use crate::effect::question_of;
use crate::error::{ErrorView, SkillError};
use crate::library::{compiled_inserted, marked_invalid, removed, LibraryView, SkillLibrary};
use crate::number::{NumberTable, NumbersView, QuestionView};
use crate::registry::{RegistryView, SkillRegistry};
use crate::table::{lemma_table_map, table_map, KeyedMap};
use crate::value::SkillId;
use vstd::prelude::*;

verus! {

/// Where the editor finds skills.
#[derive(Debug)]
pub struct SkillEditorConfig {
    pub skills_dir: String,
    pub autosave_on_compile_success: bool,
}

impl Default for SkillEditorConfig {
    fn default() -> (r: SkillEditorConfig)
        ensures
            r.skills_dir@ == "assets/skills"@,
            !r.autosave_on_compile_success,
    {
        SkillEditorConfig {
            skills_dir: "assets/skills".to_owned(),
            autosave_on_compile_success: false,
        }
    }
}

impl Clone for SkillEditorConfig {
    fn clone(&self) -> (r: SkillEditorConfig)
        ensures
            r == *self,
    {
        SkillEditorConfig {
            skills_dir: self.skills_dir.clone(),
            autosave_on_compile_success: self.autosave_on_compile_success,
        }
    }
}

/// The editor as a plugin of a game.
#[derive(Debug)]
pub struct SkillEditorPlugin {
    config: SkillEditorConfig,
}

impl SkillEditorPlugin {
    /// The configuration of the editor.
    pub closed spec fn configuration(&self) -> SkillEditorConfig {
        self.config
    }

    pub fn new(config: SkillEditorConfig) -> (r: SkillEditorPlugin)
        ensures
            r.configuration() == config,
    {
        SkillEditorPlugin { config }
    }

    /// The configuration of the editor.
    pub fn config(&self) -> (r: &SkillEditorConfig)
        ensures
            *r == self.configuration(),
    {
        &self.config
    }
}

/// The text of a skill that was just created.
pub const DEFAULT_SKILL_TEMPLATE: &'static str = "Skill(
  id: \"new_skill\",
  tags: [\"spell\"],
  params: {
    \"damage\": 18.0,
  },
  body: Sequence([
    Emit(\"skill_cast\", { \"label\": \"New Skill\" }),
    Action(\"spawn_projectile\", {
      \"kind\": \"bolt\",
      \"count\": 1.0,
      \"damage\": Expr(\"stat.damage\"),
      \"speed\": 560.0,
      \"radius\": 12.0,
    }),
  ]),
)
";

/// Why an operation of the editor failed.
#[derive(Debug)]
pub enum SkillEditorError {
    Skill(SkillError),
    /// A skill could not be written as text.
    RonSerialize(String),
    Io(String),
    /// No skill file is selected.
    NoCurrentFile,
}

/// A skill file.
#[derive(Debug)]
pub struct SkillFileEntry {
    pub path: String,
    /// The last part of the path, if it is a text.
    pub name: Option<String>,
    pub skill_id: Option<SkillId>,
    pub parse_error: Option<String>,
    pub compile_fault: Option<SkillError>,
}

pub struct FileView {
    pub path: Seq<char>,
    pub name: Option<Seq<char>>,
    pub report: ReportView,
}

/// What is known of a skill source.
pub struct ReportView {
    pub skill_id: Option<Seq<char>>,
    pub parse_error: Option<Seq<char>>,
    pub compile_fault: Option<ErrorView>,
}

pub open spec fn id_view(id: Option<SkillId>) -> Option<Seq<char>> {
    match id {
        Some(i) => Some(i@),
        None => None,
    }
}

pub open spec fn text_view(t: Option<String>) -> Option<Seq<char>> {
    match t {
        Some(s) => Some(s@),
        None => None,
    }
}

pub open spec fn error_view(e: Option<SkillError>) -> Option<ErrorView> {
    match e {
        Some(x) => Some(x@),
        None => None,
    }
}

fn copy_id(id: &Option<SkillId>) -> (r: Option<SkillId>)
    ensures
        r == *id,
{
    match id {
        Some(i) => Some(i.clone()),
        None => None,
    }
}

fn copy_text(t: &Option<String>) -> (r: Option<String>)
    ensures
        r == *t,
{
    match t {
        Some(s) => Some(s.clone()),
        None => None,
    }
}

fn copy_error(e: &Option<SkillError>) -> (r: Option<SkillError>)
    ensures
        error_view(r) == error_view(*e),
{
    match e {
        Some(x) => Some(x.clone()),
        None => None,
    }
}

/// Nothing is known.
pub open spec fn no_report() -> ReportView {
    ReportView { skill_id: None, parse_error: None, compile_fault: None }
}

impl SkillFileEntry {
    pub open spec fn view(&self) -> FileView {
        FileView {
            path: self.path@,
            name: text_view(self.name),
            report: ReportView {
                skill_id: id_view(self.skill_id),
                parse_error: text_view(self.parse_error),
                compile_fault: error_view(self.compile_fault),
            },
        }
    }

    /// A file of which nothing is known but its path.
    pub fn from_path(path: String, name: Option<String>) -> (r: SkillFileEntry)
        ensures
            r@ == (FileView { path: path@, name: text_view(name), report: no_report() }),
    {
        SkillFileEntry { path, name, skill_id: None, parse_error: None, compile_fault: None }
    }

    /// The name to show for the file.
    pub fn label(&self) -> (r: String)
        ensures
            r@ == match self@.name {
                Some(s) => s,
                None => "<unknown>"@,
            },
    {
        match &self.name {
            Some(s) => s.clone(),
            None => "<unknown>".to_owned(),
        }
    }
}

pub open spec fn files_view(s: Seq<SkillFileEntry>) -> Seq<FileView> {
    Seq::new(s.len(), |i: int| s[i]@)
}

/// What is known of the source in the editor.
#[derive(Debug)]
pub struct EditorDiagnostics {
    pub skill_id: Option<SkillId>,
    pub parse_error: Option<String>,
    pub compile_fault: Option<SkillError>,
}

impl EditorDiagnostics {
    pub open spec fn view(&self) -> ReportView {
        ReportView {
            skill_id: id_view(self.skill_id),
            parse_error: text_view(self.parse_error),
            compile_fault: error_view(self.compile_fault),
        }
    }

    pub fn new() -> (r: EditorDiagnostics)
        ensures
            r@ == no_report(),
    {
        EditorDiagnostics { skill_id: None, parse_error: None, compile_fault: None }
    }
}

/// What a source comes to.
pub struct ValidationView {
    pub def: Option<DefView>,
    pub compiled: Option<CompiledView>,
    pub report: ReportView,
}

/// What comes of parsing a source: a definition, or what the parser says.
pub open spec fn read_view(r: Result<SkillDef, String>) -> Result<DefView, Seq<char>> {
    match r {
        Ok(d) => Ok(d@),
        Err(t) => Err(t@),
    }
}

/// What a source comes to.
pub open spec fn validated(
    parsed: Result<DefView, Seq<char>>,
    registry: RegistryView,
    n: NumbersView,
) -> Result<ValidationView, QuestionView> {
    match parsed {
        Err(t) => Ok(
            ValidationView {
                def: None,
                compiled: None,
                report: ReportView {
                    skill_id: None,
                    parse_error: Some("RON parse failed: "@ + t),
                    compile_fault: None,
                },
            },
        ),
        Ok(def) => match compiled(def, registry, n) {
            Ok(c) => Ok(
                ValidationView {
                    def: Some(def),
                    compiled: Some(c),
                    report: ReportView {
                        skill_id: Some(def.id),
                        parse_error: None,
                        compile_fault: None,
                    },
                },
            ),
            Err(e) => match question_of(e) {
                Some(q) => Err(q),
                None => Ok(
                    ValidationView {
                        def: Some(def),
                        compiled: None,
                        report: ReportView {
                            skill_id: Some(def.id),
                            parse_error: None,
                            compile_fault: Some(e),
                        },
                    },
                ),
            },
        },
    }
}

pub(crate) struct ValidationResult {
    skill_id: Option<SkillId>,
    def: Option<SkillDef>,
    compiled: Option<SkillCompiled>,
    parse_error: Option<String>,
    compile_fault: Option<SkillError>,
}

pub open spec fn def_view(d: Option<SkillDef>) -> Option<DefView> {
    match d {
        Some(x) => Some(x@),
        None => None,
    }
}

impl ValidationResult {
    /// A copy of what is known of the source.
    pub(crate) fn report(&self) -> (r: (Option<SkillId>, Option<String>, Option<SkillError>))
        ensures
            self@.report == (ReportView {
                skill_id: id_view(r.0),
                parse_error: text_view(r.1),
                compile_fault: error_view(r.2),
            }),
    {
        (copy_id(&self.skill_id), copy_text(&self.parse_error), copy_error(&self.compile_fault))
    }

    /// The compiled skill.
    pub(crate) fn compiled_skill(&self) -> (r: Option<&SkillCompiled>)
        ensures
            self@.compiled == match r {
                Some(c) => Some(c@),
                None => None,
            },
    {
        match &self.compiled {
            Some(c) => Some(c),
            None => None,
        }
    }

    pub(crate) closed spec fn view(&self) -> ValidationView {
        ValidationView {
            def: def_view(self.def),
            compiled: match self.compiled {
                Some(c) => Some(c@),
                None => None,
            },
            report: ReportView {
                skill_id: id_view(self.skill_id),
                parse_error: text_view(self.parse_error),
                compile_fault: error_view(self.compile_fault),
            },
        }
    }
}

pub(crate) fn validate_source(
    parsed: &Result<SkillDef, String>,
    registry: &SkillRegistry,
    numbers: &NumberTable,
) -> (r: Result<ValidationResult, SkillError>)
    ensures
        match validated(read_view(*parsed), registry@, numbers@) {
            Ok(v) => r matches Ok(x) && x@ == v,
            Err(q) => r matches Err(e) && e@ == ErrorView::Unanswered(q),
        },
{
    match parsed {
        Ok(def) => match compile_skill(def, registry, numbers) {
            Ok(c) => Ok(
                ValidationResult {
                    skill_id: Some(def.id.clone()),
                    def: Some(def.clone()),
                    compiled: Some(c),
                    parse_error: None,
                    compile_fault: None,
                },
            ),
            Err(SkillError::Unanswered(q)) => Err(SkillError::Unanswered(q)),
            Err(e) => Ok(
                ValidationResult {
                    skill_id: Some(def.id.clone()),
                    def: Some(def.clone()),
                    compiled: None,
                    parse_error: None,
                    compile_fault: Some(e),
                },
            ),
        },
        Err(t) => {
            let mut text: String = "RON parse failed: ".to_owned();
            text.append(t.as_str());
            Ok(
                ValidationResult {
                    skill_id: None,
                    def: None,
                    compiled: None,
                    parse_error: Some(text),
                    compile_fault: None,
                },
            )
        },
    }
}

/// The state of the editor.
#[derive(Debug)]
pub struct SkillEditorState {
    pub files: Vec<SkillFileEntry>,
    pub current_file: Option<String>,
    pub source: String,
    pub dirty: bool,
    pub diagnostics: EditorDiagnostics,
    pub current_def: Option<SkillDef>,
    pub preview_skill_id: Option<SkillId>,
    pub compiled_cache: KeyedMap<SkillCompiled>,
    pub last_io_error: Option<String>,
}

#[verifier::ext_equal]
pub struct EditorView {
    pub files: Seq<FileView>,
    pub current_file: Option<Seq<char>>,
    pub source: Seq<char>,
    pub dirty: bool,
    pub diagnostics: ReportView,
    pub current_def: Option<DefView>,
    pub preview_skill_id: Option<Seq<char>>,
    pub compiled_cache: Map<Seq<char>, CompiledView>,
    pub last_io_error: Option<Seq<char>>,
}

/// What the cache holds.
pub open spec fn cache_view(m: KeyedMap<SkillCompiled>) -> Map<Seq<char>, CompiledView> {
    table_map(m@, |c: SkillCompiled| c@)
}

/// The editor and the library.
pub struct DeskView {
    pub editor: EditorView,
    pub library: LibraryView,
}

/// The desk without a skill.
pub open spec fn forgotten(d: DeskView, id: Seq<char>) -> DeskView {
    DeskView {
        editor: EditorView {
            compiled_cache: d.editor.compiled_cache.remove(id),
            preview_skill_id: if d.editor.preview_skill_id == Some(id) {
                None
            } else {
                d.editor.preview_skill_id
            },
            ..d.editor
        },
        library: removed(d.library, id),
    }
}

/// The desk after the skill in the editor got another identifier.
pub open spec fn renamed_from(d: DeskView, before: Option<Seq<char>>, after: Option<Seq<char>>) -> DeskView {
    match (before, after) {
        (Some(a), Some(b)) => if a != b {
            forgotten(d, a)
        } else {
            d
        },
        _ => d,
    }
}

/// The identifier of a definition.
pub open spec fn def_id(d: Option<DefView>) -> Option<Seq<char>> {
    match d {
        Some(x) => Some(x.id),
        None => None,
    }
}

/// The desk after a compiled skill was taken in.
pub open spec fn taken_in(d: DeskView, c: CompiledView) -> DeskView {
    DeskView {
        editor: EditorView {
            preview_skill_id: Some(c.id),
            compiled_cache: d.editor.compiled_cache.insert(c.id, c),
            ..d.editor
        },
        library: compiled_inserted(d.library, c),
    }
}

/// The desk after a skill turned out to be invalid. A version that was compiled before stays.
pub open spec fn turned_down(d: DeskView, id: Seq<char>, e: ErrorView) -> DeskView {
    if d.editor.compiled_cache.contains_key(id) {
        d
    } else {
        DeskView {
            editor: EditorView {
                preview_skill_id: if d.editor.preview_skill_id == Some(id) {
                    None
                } else {
                    d.editor.preview_skill_id
                },
                ..d.editor
            },
            library: marked_invalid(d.library, id, e),
        }
    }
}

/// The desk after the source in the editor was validated.
pub open spec fn revalidated(d: DeskView, v: ValidationView) -> DeskView {
    let shown = DeskView {
        editor: EditorView { diagnostics: v.report, current_def: v.def, ..d.editor },
        library: d.library,
    };
    let kept = renamed_from(shown, def_id(d.editor.current_def), v.report.skill_id);
    match v.compiled {
        Some(c) => taken_in(kept, c),
        None => match (v.report.skill_id, v.report.compile_fault) {
            (Some(id), Some(e)) => turned_down(kept, id, e),
            _ => kept,
        },
    }
}

/// The desk with the report on the source in the editor noted for its file.
pub open spec fn file_noted(files: Seq<FileView>, path: Seq<char>, report: ReportView, k: int) -> Seq<
    FileView,
>
    decreases files.len() - k,
{
    if 0 <= k < files.len() {
        if files[k].path == path {
            files.update(k, FileView { report, ..files[k] })
        } else {
            file_noted(files, path, report, k + 1)
        }
    } else {
        files
    }
}

/// The editor with its report noted for its file.
pub open spec fn noted(e: EditorView) -> EditorView {
    match e.current_file {
        Some(path) => EditorView { files: file_noted(e.files, path, e.diagnostics, 0), ..e },
        None => e,
    }
}

/// The skill to preview: the last one that was compiled, or else the one in the editor.
pub open spec fn previewed(e: EditorView) -> Option<CompiledView> {
    match e.preview_skill_id {
        Some(id) if e.compiled_cache.contains_key(id) => Some(e.compiled_cache[id]),
        _ => match e.current_def {
            Some(d) if e.compiled_cache.contains_key(d.id) => Some(e.compiled_cache[d.id]),
            _ => None,
        },
    }
}

pub open spec fn desk(e: SkillEditorState, l: SkillLibrary) -> DeskView {
    DeskView { editor: e@, library: l@ }
}

impl SkillEditorState {
    pub open spec fn view(&self) -> EditorView {
        EditorView {
            files: files_view(self.files@),
            current_file: text_view(self.current_file),
            source: self.source@,
            dirty: self.dirty,
            diagnostics: self.diagnostics@,
            current_def: def_view(self.current_def),
            preview_skill_id: id_view(self.preview_skill_id),
            compiled_cache: cache_view(self.compiled_cache),
            last_io_error: text_view(self.last_io_error),
        }
    }

    /// An editor without files.
    pub fn new() -> (r: SkillEditorState)
        ensures
            r@ == (EditorView {
                files: Seq::empty(),
                current_file: None,
                source: Seq::empty(),
                dirty: false,
                diagnostics: no_report(),
                current_def: None,
                preview_skill_id: None,
                compiled_cache: Map::empty(),
                last_io_error: None,
            }),
    {
        let r = SkillEditorState {
            files: Vec::new(),
            current_file: None,
            source: String::new(),
            dirty: false,
            diagnostics: EditorDiagnostics::new(),
            current_def: None,
            preview_skill_id: None,
            compiled_cache: KeyedMap::new(),
            last_io_error: None,
        };
        assert(r@.files =~= Seq::empty());
        assert(r@.source =~= Seq::empty());
        assert(r@.compiled_cache =~= Map::empty());
        r
    }

    fn previews(&self, id: &SkillId) -> (r: bool)
        ensures
            r == (self@.preview_skill_id == Some(id@)),
    {
        match &self.preview_skill_id {
            Some(p) => p.0 == id.0,
            None => false,
        }
    }

    fn forget(&mut self, id: &SkillId, library: &mut SkillLibrary)
        ensures
            desk(*final(self), *final(library)) == forgotten(desk(*old(self), *old(library)), id@),
    {
        let ghost start = desk(*self, *library);
        library.remove(id);
        let ghost before = self.compiled_cache@;
        let _ = self.compiled_cache.shift_remove(id.0.as_str());
        proof {
            lemma_table_map(before, id@, arbitrary(), |c: SkillCompiled| c@);
        }
        if self.previews(id) {
            self.preview_skill_id = None;
        }
        assert(self@ =~= forgotten(start, id@).editor);
    }

    fn apply(&mut self, v: ValidationResult, library: &mut SkillLibrary)
        ensures
            desk(*final(self), *final(library)) == revalidated(
                desk(*old(self), *old(library)),
                v@,
            ),
    {
        let ghost start = desk(*self, *library);
        let ghost content = v@;
        let previous = self.selected_skill_id();
        let ValidationResult { skill_id, def, compiled, parse_error, compile_fault } = v;
        self.diagnostics = EditorDiagnostics {
            skill_id: copy_id(&skill_id),
            parse_error,
            compile_fault: copy_error(&compile_fault),
        };
        self.current_def = def;
        let ghost shown = DeskView {
            editor: EditorView {
                diagnostics: content.report,
                current_def: content.def,
                ..start.editor
            },
            library: start.library,
        };
        assert(self@ =~= shown.editor);
        if let (Some(a), Some(b)) = (&previous, &skill_id) {
            if a.0 != b.0 {
                self.forget(a, library);
            }
        }
        let ghost kept = renamed_from(
            shown,
            def_id(start.editor.current_def),
            content.report.skill_id,
        );
        assert(desk(*self, *library) == kept);
        match compiled {
            Some(c) => {
                library.insert_compiled(c.clone());
                self.preview_skill_id = Some(c.id.clone());
                let ghost before = self.compiled_cache@;
                let id: String = c.id.0.clone();
                let ghost whole = c;
                let _ = self.compiled_cache.insert(id, c);
                proof {
                    lemma_table_map(before, whole.id@, whole, |c: SkillCompiled| c@);
                }
                assert(self@ =~= taken_in(kept, whole@).editor);
            },
            None => {
                if let (Some(id), Some(e)) = (skill_id, compile_fault) {
                    if !self.compiled_cache.contains_key(id.0.as_str()) {
                        if self.previews(&id) {
                            self.preview_skill_id = None;
                        }
                        library.mark_invalid(id, e);
                    }
                }
            },
        }
    }

    /// Validates the source in the editor. A question leaves everything as it was.
    pub fn revalidate(
        &mut self,
        parsed: &Result<SkillDef, String>,
        registry: &SkillRegistry,
        library: &mut SkillLibrary,
        numbers: &NumberTable,
    ) -> (r: Result<(), SkillError>)
        ensures
            match validated(read_view(*parsed), registry@, numbers@) {
                Ok(v) => r is Ok && desk(*final(self), *final(library)) == revalidated(
                    desk(*old(self), *old(library)),
                    v,
                ),
                Err(q) => r matches Err(e) && e@ == ErrorView::Unanswered(q) && *final(self) == *old(
                    self,
                ) && *final(library) == *old(library),
            },
    {
        match validate_source(parsed, registry, numbers) {
            Ok(v) => {
                self.apply(v, library);
                Ok(())
            },
            Err(e) => Err(e),
        }
    }

    /// Opens a file with the text that was read from it. A question leaves everything as it was.
    pub fn open_file(
        &mut self,
        path: String,
        source: String,
        parsed: &Result<SkillDef, String>,
        registry: &SkillRegistry,
        library: &mut SkillLibrary,
        numbers: &NumberTable,
    ) -> (r: Result<(), SkillError>)
        ensures
            match validated(read_view(*parsed), registry@, numbers@) {
                Ok(v) => r is Ok && desk(*final(self), *final(library)) == revalidated(
                    DeskView {
                        editor: EditorView {
                            current_file: Some(path@),
                            source: source@,
                            dirty: false,
                            preview_skill_id: None,
                            ..old(self)@
                        },
                        library: old(library)@,
                    },
                    v,
                ),
                Err(q) => r matches Err(e) && e@ == ErrorView::Unanswered(q) && *final(self) == *old(
                    self,
                ) && *final(library) == *old(library),
            },
    {
        match validate_source(parsed, registry, numbers) {
            Ok(v) => {
                self.current_file = Some(path);
                self.source = source;
                self.dirty = false;
                self.preview_skill_id = None;
                self.apply(v, library);
                Ok(())
            },
            Err(e) => Err(e),
        }
    }

    /// Changes the source in the editor. The same text changes nothing, and a question leaves
    /// everything as it was.
    pub fn edit_source(
        &mut self,
        source: String,
        parsed: &Result<SkillDef, String>,
        registry: &SkillRegistry,
        library: &mut SkillLibrary,
        numbers: &NumberTable,
    ) -> (r: Result<(), SkillError>)
        ensures
            old(self)@.source == source@ ==> r is Ok && *final(self) == *old(self)
                && *final(library) == *old(library),
            old(self)@.source != source@ ==> match validated(
                read_view(*parsed),
                registry@,
                numbers@,
            ) {
                Ok(v) => r is Ok && desk(*final(self), *final(library)) == revalidated(
                    DeskView {
                        editor: EditorView { source: source@, dirty: true, ..old(self)@ },
                        library: old(library)@,
                    },
                    v,
                ),
                Err(q) => r matches Err(e) && e@ == ErrorView::Unanswered(q) && *final(self) == *old(
                    self,
                ) && *final(library) == *old(library),
            },
    {
        if self.source == source {
            return Ok(());
        }
        match validate_source(parsed, registry, numbers) {
            Ok(v) => {
                self.source = source;
                self.dirty = true;
                self.apply(v, library);
                Ok(())
            },
            Err(e) => Err(e),
        }
    }

    /// The file to write the source to: the source must be readable and a file must be selected.
    pub fn save_target(&self, parsed: &Result<SkillDef, String>) -> (r: Result<
        String,
        SkillEditorError,
    >)
        ensures
            match (read_view(*parsed), self@.current_file) {
                (Err(t), _) => r matches Err(SkillEditorError::Skill(e)) && e@ == ErrorView::Ron(t),
                (Ok(_), None) => r matches Err(SkillEditorError::NoCurrentFile),
                (Ok(_), Some(path)) => r matches Ok(p) && p@ == path,
            },
    {
        match parsed {
            Err(t) => Err(SkillEditorError::Skill(SkillError::Ron(t.clone()))),
            Ok(_) => match &self.current_file {
                Some(path) => Ok(path.clone()),
                None => Err(SkillEditorError::NoCurrentFile),
            },
        }
    }

    /// Notes that the source was written to its file, which `save_target` names. A source that
    /// cannot be read is refused, and a refusal or a question leaves everything as it was.
    pub fn save_current(
        &mut self,
        parsed: &Result<SkillDef, String>,
        registry: &SkillRegistry,
        numbers: &NumberTable,
    ) -> (r: Result<(), SkillError>)
        requires
            old(self)@.current_file is Some,
        ensures
            match (read_view(*parsed), validated(read_view(*parsed), registry@, numbers@)) {
                (Err(t), _) => r matches Err(e) && e@ == ErrorView::Ron(t) && *final(self) == *old(
                    self,
                ),
                (Ok(_), Ok(v)) => r is Ok && final(self)@ == noted(
                    EditorView { dirty: false, diagnostics: v.report, ..old(self)@ },
                ),
                (Ok(_), Err(q)) => r matches Err(e) && e@ == ErrorView::Unanswered(q)
                    && *final(self) == *old(self),
            },
    {
        if let Err(t) = parsed {
            return Err(SkillError::Ron(t.clone()));
        }
        match validate_source(parsed, registry, numbers) {
            Ok(v) => {
                self.dirty = false;
                self.diagnostics = EditorDiagnostics {
                    skill_id: v.skill_id,
                    parse_error: v.parse_error,
                    compile_fault: v.compile_fault,
                };
                self.update_current_file_diagnostics();
                Ok(())
            },
            Err(e) => Err(e),
        }
    }

    /// Notes that the source was written to its file, which `save_target` names, and takes the
    /// skill in. A source that cannot be read is refused, and a refusal or a question leaves
    /// everything as it was.
    pub fn save_current_with_library(
        &mut self,
        parsed: &Result<SkillDef, String>,
        registry: &SkillRegistry,
        library: &mut SkillLibrary,
        numbers: &NumberTable,
    ) -> (r: Result<(), SkillError>)
        requires
            old(self)@.current_file is Some,
        ensures
            match (read_view(*parsed), validated(read_view(*parsed), registry@, numbers@)) {
                (Err(t), _) => r matches Err(e) && e@ == ErrorView::Ron(t) && *final(self) == *old(
                    self,
                ) && *final(library) == *old(library),
                (Ok(_), Ok(v)) => {
                    let after = revalidated(
                        DeskView {
                            editor: EditorView { dirty: false, ..old(self)@ },
                            library: old(library)@,
                        },
                        v,
                    );
                    r is Ok && final(self)@ == noted(after.editor) && final(library)@
                        == after.library
                },
                (Ok(_), Err(q)) => r matches Err(e) && e@ == ErrorView::Unanswered(q)
                    && *final(self) == *old(self) && *final(library) == *old(library),
            },
    {
        if let Err(t) = parsed {
            return Err(SkillError::Ron(t.clone()));
        }
        match validate_source(parsed, registry, numbers) {
            Ok(v) => {
                self.dirty = false;
                self.apply(v, library);
                self.update_current_file_diagnostics();
                Ok(())
            },
            Err(e) => Err(e),
        }
    }

    /// Begins a new skill in a file that does not exist yet; `parsed` is the template. A question
    /// leaves everything as it was.
    pub fn create_new(
        &mut self,
        path: String,
        name: Option<String>,
        parsed: &Result<SkillDef, String>,
        registry: &SkillRegistry,
        library: &mut SkillLibrary,
        numbers: &NumberTable,
    ) -> (r: Result<(), SkillError>)
        ensures
            match validated(read_view(*parsed), registry@, numbers@) {
                Ok(v) => {
                    let after = revalidated(
                        DeskView {
                            editor: EditorView {
                                current_file: Some(path@),
                                source: DEFAULT_SKILL_TEMPLATE@,
                                dirty: true,
                                ..old(self)@
                            },
                            library: old(library)@,
                        },
                        v,
                    );
                    r is Ok && final(library)@ == after.library && final(self)@ == (EditorView {
                        files: after.editor.files.push(
                            FileView { path: path@, name: text_view(name), report: no_report() },
                        ),
                        ..after.editor
                    })
                },
                Err(q) => r matches Err(e) && e@ == ErrorView::Unanswered(q) && *final(self) == *old(
                    self,
                ) && *final(library) == *old(library),
            },
    {
        match validate_source(parsed, registry, numbers) {
            Ok(v) => {
                self.current_file = Some(path.clone());
                self.source = DEFAULT_SKILL_TEMPLATE.to_owned();
                self.dirty = true;
                self.apply(v, library);
                let ghost before = self.files@;
                let entry = SkillFileEntry::from_path(path, name);
                self.files.push(entry);
                assert(files_view(self.files@) =~= files_view(before).push(entry@));
                Ok(())
            },
            Err(e) => Err(e),
        }
    }

    /// Forgets the skill in the editor, and says which file is to be deleted.
    pub fn delete_current(&mut self, library: &mut SkillLibrary) -> (r: Option<String>)
        ensures
            text_view(r) == old(self)@.current_file,
            desk(*final(self), *final(library)) == match (
                old(self)@.current_file,
                old(self)@.current_def,
            ) {
                (Some(_), Some(d)) => forgotten(desk(*old(self), *old(library)), d.id),
                _ => desk(*old(self), *old(library)),
            },
    {
        let path = match &self.current_file {
            Some(p) => p.clone(),
            None => return None,
        };
        if let Some(id) = self.selected_skill_id() {
            self.forget(&id, library);
        }
        Some(path)
    }

    /// The identifier of the skill in the editor.
    pub fn selected_skill_id(&self) -> (r: Option<SkillId>)
        ensures
            id_view(r) == def_id(self@.current_def),
    {
        match &self.current_def {
            Some(d) => Some(d.id.clone()),
            None => None,
        }
    }

    /// The skill to preview.
    pub fn selected_compiled(&self) -> (r: Option<&SkillCompiled>)
        ensures
            match r {
                Some(c) => previewed(self@) == Some(c@),
                None => previewed(self@) is None,
            },
    {
        if let Some(id) = &self.preview_skill_id {
            if let Some(c) = self.compiled_cache.get(id.0.as_str()) {
                return Some(c);
            }
        }
        match &self.current_def {
            Some(d) => self.compiled_cache.get(d.id.0.as_str()),
            None => None,
        }
    }

    /// The identifier of the skill to preview.
    pub fn selected_preview_skill_id(&self) -> (r: Option<SkillId>)
        ensures
            id_view(r) == match previewed(self@) {
                Some(c) => Some(c.id),
                None => None,
            },
    {
        match self.selected_compiled() {
            Some(c) => Some(c.id.clone()),
            None => None,
        }
    }

    /// Whether the preview shows an earlier version than the source.
    pub fn preview_is_stale(&self) -> (r: bool)
        ensures
            r == (previewed(self@) is Some && (self@.diagnostics.parse_error is Some
                || self@.diagnostics.compile_fault is Some)),
    {
        self.selected_compiled().is_some() && (self.diagnostics.parse_error.is_some()
            || self.diagnostics.compile_fault.is_some())
    }

    fn update_current_file_diagnostics(&mut self)
        ensures
            final(self)@ == noted(old(self)@),
    {
        let path = match &self.current_file {
            Some(p) => p.clone(),
            None => return ,
        };
        let ghost start = self@;
        let n: usize = self.files.len();
        let mut i: usize = 0;
        while i < n
            invariant
                i <= n,
                n == self.files@.len(),
                self@ == start,
                start == old(self)@,
                start.current_file == Some(path@),
                file_noted(start.files, path@, start.diagnostics, 0) == file_noted(
                    start.files,
                    path@,
                    start.diagnostics,
                    i as int,
                ),
            decreases n - i,
        {
            assert(start.files[i as int] == self.files@[i as int]@);
            if self.files[i].path == path {
                let entry = SkillFileEntry {
                    path,
                    name: copy_text(&self.files[i].name),
                    skill_id: copy_id(&self.diagnostics.skill_id),
                    parse_error: copy_text(&self.diagnostics.parse_error),
                    compile_fault: copy_error(&self.diagnostics.compile_fault),
                };
                self.files.set(i, entry);
                assert(files_view(self.files@) =~= start.files.update(
                    i as int,
                    FileView { report: start.diagnostics, ..start.files[i as int] },
                ));
                return ;
            }
            i = i + 1;
        }
    }
}

/// A law of the editor: an edit that does not compile leaves the last version of the skill that did
/// where it was, in the library and in the preview.
pub proof fn law_failed_edit_keeps_last_version(d: DeskView, v: ValidationView, id: Seq<char>)
    requires
        v.compiled is None,
        v.report.skill_id == Some(id),
        def_id(d.editor.current_def) == Some(id),
        d.editor.compiled_cache.contains_key(id),
    ensures
        revalidated(d, v).library == d.library,
        revalidated(d, v).editor.compiled_cache == d.editor.compiled_cache,
        revalidated(d, v).editor.preview_skill_id == d.editor.preview_skill_id,
{
}

/// A law of the editor: an edit that does not parse changes neither the library nor the preview.
pub proof fn law_unreadable_edit_keeps_library(d: DeskView, v: ValidationView)
    requires
        v.compiled is None,
        v.report.skill_id is None,
    ensures
        revalidated(d, v).library == d.library,
        revalidated(d, v).editor.compiled_cache == d.editor.compiled_cache,
        revalidated(d, v).editor.preview_skill_id == d.editor.preview_skill_id,
{
}

/// A law of the editor: a skill that compiles can be cast and is previewed, under its new
/// identifier alone.
pub proof fn law_compiled_edit_is_previewed(d: DeskView, v: ValidationView, c: CompiledView)
    requires
        v.compiled == Some(c),
        v.report.skill_id == Some(c.id),
    ensures
        revalidated(d, v).library.compiled.contains_key(c.id),
        revalidated(d, v).library.compiled[c.id] == c,
        previewed(revalidated(d, v).editor) == Some(c),
        def_id(d.editor.current_def) matches Some(id) ==> id != c.id ==> !revalidated(
            d,
            v,
        ).library.compiled.contains_key(id),
{
}

} // verus!
