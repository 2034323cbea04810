use crate::order::{
    distinct_keys, lemma_sorted, lemma_sorted_distinct, lemma_sorted_keeps, lemma_sorted_map,
    ordered, record_key, sort_records, sorted, strictly_ordered, Record, SortKey,
};
use crate::parser::{
    function_key, function_views, line_name_before, line_name_key, result_view, type_key,
    type_views, ExportsView, ExtractedExports, ExtractedFunction, ExtractedType, FunctionView,
    TsExportParser, TypeView,
};
use crate::text::bytes_lt;
use crate::walker::{RepoEntry, SourceKind};
use crate::markdown::{markdown_of, render_markdown_with_config};
use crate::{
    normalize_path, normalized_path, ContextMapError, FileResult, FunctionExport, RenderConfig,
    RenderProfile, RunOutput, RunSummary, TypeExport,
};
use vstd::prelude::*;
use vstd::string::*;
use vstd::utf8::*;

verus! {

/// What was found in one file, as a mathematical value.
pub ghost struct FileView {
    pub path: Seq<char>,
    pub functions: Seq<FunctionView>,
    pub types: Seq<TypeView>,
    pub error: Option<Seq<char>>,
}

/// The view of a function of a file, without the path.
pub open spec fn export_view() -> spec_fn(FunctionExport) -> FunctionView {
    |f: FunctionExport| FunctionView { name: f.name@, signature: f.signature@, line: f.line as int }
}

/// The view of a type of a file, without the path.
pub open spec fn type_export_view() -> spec_fn(TypeExport) -> TypeView {
    |t: TypeExport| TypeView { name: t.name@, line: t.line as int }
}

impl View for FileResult {
    type V = FileView;

    open spec fn view(&self) -> FileView {
        FileView {
            path: self.file_path@,
            functions: self.function_exports@.map_values(export_view()),
            types: self.type_exports@.map_values(type_export_view()),
            error: match self.parse_error {
                Some(message) => Some(message@),
                None => None,
            },
        }
    }
}

/// The view of a file result, as a function.
pub open spec fn file_view() -> spec_fn(FileResult) -> FileView {
    |f: FileResult| f@
}

/// The views of a list of file results.
pub open spec fn file_views(files: Seq<FileResult>) -> Seq<FileView> {
    files.map_values(file_view())
}

impl FileResult {
    /// Whether each export of the file names the file as its own.
    pub open spec fn well_formed(&self) -> bool {
        &&& forall|i: int|
            0 <= i < self.function_exports@.len() ==> (#[trigger] self.function_exports@[i]).file_path@
                == self.file_path@
        &&& forall|i: int|
            0 <= i < self.type_exports@.len() ==> (#[trigger] self.type_exports@[i]).file_path@
                == self.file_path@
    }
}

impl Record for FunctionExport {
    open spec fn key(&self) -> SortKey {
        line_name_key(self.line as int, self.name@)
    }

    fn sorts_before(&self, other: &Self) -> (r: bool) {
        line_name_before(self.line, &self.name, other.line, &other.name)
    }
}

impl Record for TypeExport {
    open spec fn key(&self) -> SortKey {
        line_name_key(self.line as int, self.name@)
    }

    fn sorts_before(&self, other: &Self) -> (r: bool) {
        line_name_before(self.line, &self.name, other.line, &other.name)
    }
}

/// The key of a file: its path, as a text.
pub open spec fn file_key() -> spec_fn(FileView) -> SortKey {
    |f: FileView| SortKey { major: 0, text: encode_utf8(f.path), minor: 0 }
}

impl Record for FileResult {
    open spec fn key(&self) -> SortKey {
        SortKey { major: 0, text: encode_utf8(self.file_path@), minor: 0 }
    }

    fn sorts_before(&self, other: &Self) -> (r: bool) {
        proof {
            crate::order::lemma_bytes_before_irreflexive(encode_utf8(self.file_path@));
        }
        bytes_lt(self.file_path.as_str().as_bytes(), other.file_path.as_str().as_bytes())
    }
}

/// What is recorded for the file at `path`: its exports in the order of
/// `(line, name)`, or its failure and no export.
pub open spec fn file_view_of(path: Seq<char>, outcome: Result<ExportsView, Seq<char>>) -> FileView {
    match outcome {
        Ok(x) => FileView {
            path,
            functions: sorted(x.functions, function_key()),
            types: sorted(x.types, type_key()),
            error: None,
        },
        Err(message) => FileView {
            path,
            functions: Seq::empty(),
            types: Seq::empty(),
            error: Some(message),
        },
    }
}

fn function_exports_of(relative: &String, functions: &Vec<ExtractedFunction>) -> (out: Vec<
    FunctionExport,
>)
    ensures
        out@.map_values(export_view()) == sorted(function_views(functions@), function_key()),
        forall|i: int| 0 <= i < out@.len() ==> (#[trigger] out@[i]).file_path@ == relative@,
{
    let mut made: Vec<FunctionExport> = Vec::new();
    let mut i: usize = 0;
    while i < functions.len()
        invariant
            i <= functions.len(),
            made@.len() == i,
            forall|k: int| 0 <= k < i ==> export_view()(#[trigger] made@[k]) == functions@[k]@,
            forall|k: int| 0 <= k < i ==> (#[trigger] made@[k]).file_path@ == relative@,
        decreases functions.len() - i,
    {
        let f = &functions[i];
        made.push(
            FunctionExport {
                name: f.name.clone(),
                signature: f.signature.clone(),
                file_path: relative.clone(),
                line: f.line,
            },
        );
        i = i + 1;
    }
    proof {
        assert(made@.map_values(export_view()) =~= function_views(functions@));
        lemma_sorted_map(made@, export_view(), record_key::<FunctionExport>(), function_key());
        lemma_sorted_keeps(
            made@,
            record_key::<FunctionExport>(),
            |f: FunctionExport| f.file_path@ == relative@,
        );
    }
    sort_records(made)
}

fn type_exports_of(relative: &String, types: &Vec<ExtractedType>) -> (out: Vec<TypeExport>)
    ensures
        out@.map_values(type_export_view()) == sorted(type_views(types@), type_key()),
        forall|i: int| 0 <= i < out@.len() ==> (#[trigger] out@[i]).file_path@ == relative@,
{
    let mut made: Vec<TypeExport> = Vec::new();
    let mut i: usize = 0;
    while i < types.len()
        invariant
            i <= types.len(),
            made@.len() == i,
            forall|k: int| 0 <= k < i ==> type_export_view()(#[trigger] made@[k]) == types@[k]@,
            forall|k: int| 0 <= k < i ==> (#[trigger] made@[k]).file_path@ == relative@,
        decreases types.len() - i,
    {
        let t = &types[i];
        made.push(TypeExport { name: t.name.clone(), file_path: relative.clone(), line: t.line });
        i = i + 1;
    }
    proof {
        assert(made@.map_values(type_export_view()) =~= type_views(types@));
        lemma_sorted_map(made@, type_export_view(), record_key::<TypeExport>(), type_key());
        lemma_sorted_keeps(
            made@,
            record_key::<TypeExport>(),
            |t: TypeExport| t.file_path@ == relative@,
        );
    }
    sort_records(made)
}

/// What is recorded for the file at `relative`, given what was made of it.
pub fn file_result_of(relative: String, outcome: Result<ExtractedExports, String>) -> (out:
    FileResult)
    ensures
        out@ == file_view_of(relative@, result_view(outcome)),
        out.well_formed(),
{
    match outcome {
        Ok(extracted) => {
            let function_exports = function_exports_of(&relative, &extracted.functions);
            let type_exports = type_exports_of(&relative, &extracted.types);
            FileResult { file_path: relative, function_exports, type_exports, parse_error: None }
        },
        Err(message) => {
            let out = FileResult {
                file_path: relative,
                function_exports: Vec::new(),
                type_exports: Vec::new(),
                parse_error: Some(message),
            };
            assert(out@.functions =~= Seq::empty());
            assert(out@.types =~= Seq::empty());
            out
        },
    }
}

/// A source file as it was read: its path below the root, its kind, and its
/// text or the message of the failure to read it.
#[derive(Debug)]
pub struct LoadedFile {
    pub relative_path: String,
    pub kind: SourceKind,
    pub content: Result<String, String>,
}

/// What a file that was read exports, or why it has no exports.
pub open spec fn loaded_outcome(parser: TsExportParser, file: LoadedFile) -> Result<
    ExportsView,
    Seq<char>,
> {
    match file.content {
        Ok(text) => parser.exports_of(encode_utf8(text@), file.kind),
        Err(message) => Err(message@),
    }
}

/// The path under which a file is recorded: its path below the root, with
/// `/` in place of each `\`.
pub open spec fn recorded_path(file: LoadedFile) -> Seq<char> {
    normalized_path(file.relative_path@)
}

/// What is recorded for each of the files, in their order.
pub open spec fn loaded_views(parser: TsExportParser, files: Seq<LoadedFile>) -> Seq<FileView> {
    Seq::new(
        files.len(),
        |i: int| file_view_of(recorded_path(files[i]), loaded_outcome(parser, files[i])),
    )
}

/// Whether a path holds no `\`.
pub open spec fn without_backslash(path: Seq<char>) -> bool {
    forall|k: int| 0 <= k < path.len() ==> path[k] != '\\'
}

/// Whether no two of the files are recorded under one path.
pub open spec fn distinct_paths(files: Seq<LoadedFile>) -> bool {
    forall|i: int, j: int|
        0 <= i < j < files.len() ==> recorded_path(#[trigger] files[i]) != recorded_path(
            #[trigger] files[j],
        )
}

/// Files that are recorded under different paths have different keys.
pub proof fn lemma_distinct_paths(parser: TsExportParser, files: Seq<LoadedFile>)
    requires
        distinct_paths(files),
    ensures
        distinct_keys(loaded_views(parser, files), file_key()),
{
    let all = loaded_views(parser, files);
    assert forall|i: int, j: int| 0 <= i < j < all.len() implies #[trigger] file_key()(all[i])
        != #[trigger] file_key()(all[j]) by {
        let a = recorded_path(files[i]);
        let b = recorded_path(files[j]);
        assert(all[i].path == a && all[j].path == b);
        encode_utf8_decode_utf8(a);
        encode_utf8_decode_utf8(b);
    }
}

/// A count that stays at the greatest number of the machine once it has
/// reached it.
pub open spec fn capped(n: int) -> int {
    if n > usize::MAX {
        usize::MAX as int
    } else {
        n
    }
}

/// How many of the files were read without a failure.
pub open spec fn parsed_count(files: Seq<FileView>) -> int
    decreases files.len(),
{
    if files.len() == 0 {
        0
    } else {
        parsed_count(files.drop_last()) + if files.last().error is None {
            1int
        } else {
            0int
        }
    }
}

/// How many functions the files export.
pub open spec fn function_count(files: Seq<FileView>) -> int
    decreases files.len(),
{
    if files.len() == 0 {
        0
    } else {
        function_count(files.drop_last()) + files.last().functions.len()
    }
}

/// How many types the files export.
pub open spec fn type_count(files: Seq<FileView>) -> int
    decreases files.len(),
{
    if files.len() == 0 {
        0
    } else {
        type_count(files.drop_last()) + files.last().types.len()
    }
}

/// Whether `summary` holds the counts of these files.
pub open spec fn sums_up(summary: RunSummary, files: Seq<FileView>) -> bool {
    &&& summary.scanned == files.len()
    &&& summary.parsed == parsed_count(files)
    &&& summary.parse_failed == files.len() - parsed_count(files)
    &&& summary.exported_functions == capped(function_count(files))
    &&& summary.exported_types == capped(type_count(files))
}

/// Whether `output` is the run over these files, read by `parser`: the
/// results in the order of their paths, which hold no `\`, each export
/// naming its file, and the counts. No two results stand level where no two
/// files are recorded under one path.
pub open spec fn is_run_of(
    output: RunOutput,
    parser: TsExportParser,
    root_path: String,
    repo_entries: Vec<RepoEntry>,
    files: Seq<LoadedFile>,
) -> bool {
    &&& output.root_path == root_path
    &&& output.repo_entries == repo_entries
    &&& file_views(output.file_results@) == sorted(loaded_views(parser, files), file_key())
    &&& forall|i: int|
        0 <= i < output.file_results@.len() ==> (#[trigger] output.file_results@[i]).well_formed()
    &&& forall|i: int|
        0 <= i < output.file_results@.len() ==> without_backslash(
            (#[trigger] output.file_results@[i]).file_path@,
        )
    &&& distinct_paths(files) ==> strictly_ordered(file_views(output.file_results@), file_key())
    &&& sums_up(output.summary, loaded_views(parser, files))
}

/// Reads what each file exports and puts the run together: the results in
/// the order of their paths, and the counts.
pub fn generate_context_map(
    parser: &mut TsExportParser,
    root_path: String,
    repo_entries: Vec<RepoEntry>,
    files: &Vec<LoadedFile>,
) -> (out: RunOutput)
    ensures
        is_run_of(out, *old(parser), root_path, repo_entries, files@),
        ordered(file_views(out.file_results@), file_key()),
        final(parser).plain_language() == old(parser).plain_language(),
        final(parser).jsx_language() == old(parser).jsx_language(),
{
    let ghost all = loaded_views(*parser, files@);
    let mut summary = RunSummary::default();
    summary.scanned = files.len();
    let mut results: Vec<FileResult> = Vec::new();
    let mut i: usize = 0;
    assert(file_views(results@) =~= all.subrange(0, 0));
    while i < files.len()
        invariant
            i <= files.len(),
            all == loaded_views(*old(parser), files@),
            parser.plain_language() == old(parser).plain_language(),
            parser.jsx_language() == old(parser).jsx_language(),
            file_views(results@) == all.subrange(0, i as int),
            forall|k: int| 0 <= k < results@.len() ==> (#[trigger] results@[k]).well_formed(),
            forall|k: int|
                0 <= k < results@.len() ==> without_backslash((#[trigger] results@[k]).file_path@),
            summary.scanned == files.len(),
            summary.parsed == parsed_count(all.subrange(0, i as int)),
            summary.parse_failed == i - parsed_count(all.subrange(0, i as int)),
            0 <= parsed_count(all.subrange(0, i as int)) <= i,
            summary.exported_functions == capped(function_count(all.subrange(0, i as int))),
            summary.exported_types == capped(type_count(all.subrange(0, i as int))),
            0 <= function_count(all.subrange(0, i as int)),
            0 <= type_count(all.subrange(0, i as int)),
        decreases files.len() - i,
    {
        let file = &files[i];
        let outcome = match &file.content {
            Ok(text) => parser.extract_exports_for_source(text.as_str(), &file.kind),
            Err(message) => Err(message.clone()),
        };
        assert(result_view(outcome) == loaded_outcome(*old(parser), *file));
        let result = file_result_of(normalize_path(file.relative_path.as_str()), outcome);
        assert(result@ == all[i as int]);
        assert(without_backslash(result.file_path@));
        assert(all.subrange(0, i + 1).drop_last() =~= all.subrange(0, i as int));
        assert(all.subrange(0, i + 1).last() == all[i as int]);
        if result.parse_error.is_none() {
            summary.parsed = summary.parsed + 1;
        } else {
            summary.parse_failed = summary.parse_failed + 1;
        }
        summary.exported_functions = summary.exported_functions.saturating_add(
            result.function_exports.len(),
        );
        summary.exported_types = summary.exported_types.saturating_add(result.type_exports.len());
        let ghost before = results@;
        results.push(result);
        assert(file_views(results@) =~= file_views(before).push(result@));
        i = i + 1;
    }
    proof {
        assert(all.subrange(0, files.len() as int) =~= all);
        lemma_sorted_map(results@, file_view(), record_key::<FileResult>(), file_key());
        lemma_sorted(file_views(results@), file_key());
        lemma_sorted_keeps(results@, record_key::<FileResult>(), |f: FileResult| f.well_formed());
        lemma_sorted_keeps(
            results@,
            record_key::<FileResult>(),
            |f: FileResult| without_backslash(f.file_path@),
        );
        if distinct_paths(files@) {
            lemma_distinct_paths(*old(parser), files@);
            lemma_sorted_distinct(all, file_key());
        }
    }
    RunOutput { root_path, repo_entries, summary, file_results: sort_records(results) }
}

/// The message of an error.
pub open spec fn error_message(error: ContextMapError) -> Seq<char> {
    match error {
        ContextMapError::InvalidRoot(path) => "invalid root path: "@ + path@,
        ContextMapError::ParserInit(message) => "failed to initialize parser: "@ + message@,
        ContextMapError::Io(message) => "io error: "@ + message@,
    }
}

impl ContextMapError {
    /// The message of the error.
    pub fn message(&self) -> (out: String)
        ensures
            out@ == error_message(*self),
    {
        match self {
            ContextMapError::InvalidRoot(path) => {
                let mut out = String::from_str("invalid root path: ");
                out.append(path.as_str());
                out
            },
            ContextMapError::ParserInit(message) => {
                let mut out = String::from_str("failed to initialize parser: ");
                out.append(message.as_str());
                out
            },
            ContextMapError::Io(message) => {
                let mut out = String::from_str("io error: ");
                out.append(message.as_str());
                out
            },
        }
    }
}

/// Makes the run over these files and renders it as the configuration asks
/// for it.
pub fn run_with_config(
    parser: &mut TsExportParser,
    root_path: String,
    repo_entries: Vec<RepoEntry>,
    files: &Vec<LoadedFile>,
    config: RenderConfig,
) -> (out: (RunOutput, String))
    ensures
        is_run_of(out.0, *old(parser), root_path, repo_entries, files@),
        out.1@ == markdown_of(out.0, config),
        final(parser).plain_language() == old(parser).plain_language(),
        final(parser).jsx_language() == old(parser).jsx_language(),
{
    let output = generate_context_map(parser, root_path, repo_entries, files);
    let markdown = render_markdown_with_config(&output, config);
    (output, markdown)
}

/// Makes the run over these files and renders it with the usual
/// configuration.
pub fn run(
    parser: &mut TsExportParser,
    root_path: String,
    repo_entries: Vec<RepoEntry>,
    files: &Vec<LoadedFile>,
) -> (out: (RunOutput, String))
    ensures
        is_run_of(out.0, *old(parser), root_path, repo_entries, files@),
        out.1@ == markdown_of(
            out.0,
            (RenderConfig { profile: RenderProfile::Balanced, include_types: true, tree_depth: 10 }),
        ),
        final(parser).plain_language() == old(parser).plain_language(),
        final(parser).jsx_language() == old(parser).jsx_language(),
{
    run_with_config(parser, root_path, repo_entries, files, RenderConfig::default())
}

} // verus!
