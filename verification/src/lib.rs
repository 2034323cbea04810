use crate::text::{chars_of, string_of_chars};
use vstd::prelude::*;
use vstd::string::*;

pub mod depth;
pub mod markdown;
pub mod order;
pub mod parser;
pub mod provider;
pub mod run;
pub mod snapshot;
pub mod syntax;
pub mod text;
pub mod tree;
pub mod vue;
pub mod walker;

pub use crate::run::{generate_context_map, run, run_with_config};
pub use crate::walker::RepoEntry;

verus! {

/// An exported callable of a file.
#[derive(Debug, Clone, PartialEq, Eq)]
pub struct FunctionExport {
    pub name: String,
    pub signature: String,
    pub file_path: String,
    pub line: usize,
}

/// An exported type of a file.
#[derive(Debug, Clone, PartialEq, Eq)]
pub struct TypeExport {
    pub name: String,
    pub file_path: String,
    pub line: usize,
}

/// What was found in one file: its exports, or why it could not be read.
#[derive(Debug, Clone, PartialEq, Eq)]
pub struct FileResult {
    pub file_path: String,
    pub function_exports: Vec<FunctionExport>,
    pub type_exports: Vec<TypeExport>,
    pub parse_error: Option<String>,
}

/// The counts of a run.
#[derive(Debug, Clone, PartialEq, Eq)]
pub struct RunSummary {
    pub scanned: usize,
    pub parsed: usize,
    pub parse_failed: usize,
    pub exported_functions: usize,
    pub exported_types: usize,
}

impl Default for RunSummary {
    fn default() -> (out: Self)
        ensures
            out.scanned == 0,
            out.parsed == 0,
            out.parse_failed == 0,
            out.exported_functions == 0,
            out.exported_types == 0,
    {
        RunSummary { scanned: 0, parsed: 0, parse_failed: 0, exported_functions: 0, exported_types: 0 }
    }
}

/// All that a run found.
#[derive(Debug, Clone, PartialEq, Eq)]
pub struct RunOutput {
    pub root_path: String,
    pub repo_entries: Vec<RepoEntry>,
    pub summary: RunSummary,
    pub file_results: Vec<FileResult>,
}

/// How much of each export the rendering shows.
#[derive(Debug, Clone, Copy, PartialEq, Eq, Structural)]
pub enum RenderProfile {
    /// The name alone.
    Compact,
    /// The name and the parameters.
    Balanced,
    /// The whole signature and the line.
    Detailed,
}

/// What the rendering holds.
#[derive(Debug, Clone, Copy)]
pub struct RenderConfig {
    pub profile: RenderProfile,
    pub include_types: bool,
    pub tree_depth: usize,
}

impl Default for RenderConfig {
    fn default() -> (out: Self)
        ensures
            out.profile == RenderProfile::Balanced,
            out.include_types,
            out.tree_depth == 10,
    {
        RenderConfig { profile: RenderProfile::Balanced, include_types: true, tree_depth: 10 }
    }
}

/// Why a run could not be made.
#[derive(Debug)]
pub enum ContextMapError {
    /// The root, given here, is no directory.
    InvalidRoot(String),
    /// The parser could not be set up; its message.
    ParserInit(String),
    /// Reading or writing failed; the message of the failure.
    Io(String),
}

/// A path with `/` in place of each `\`.
pub open spec fn normalized_path(path: Seq<char>) -> Seq<char> {
    Seq::new(path.len(), |i: int| if path[i] == '\\' { '/' } else { path[i] })
}

/// A path with `/` in place of each `\`.
pub fn normalize_path(path: &str) -> (out: String)
    ensures
        out@ == normalized_path(path@),
{
    let chars = chars_of(path);
    let mut turned: Vec<char> = Vec::new();
    let mut i: usize = 0;
    while i < chars.len()
        invariant
            i <= chars.len(),
            chars@ == path@,
            turned@ == normalized_path(path@).subrange(0, i as int),
        decreases chars.len() - i,
    {
        let c = chars[i];
        turned.push(if c == '\\' { '/' } else { c });
        assert(turned@ =~= normalized_path(path@).subrange(0, i + 1));
        i = i + 1;
    }
    assert(normalized_path(path@).subrange(0, chars.len() as int) =~= normalized_path(path@));
    string_of_chars(turned.as_slice())
}

} // verus!
