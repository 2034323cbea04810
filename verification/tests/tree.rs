use context_map::markdown::{render_markdown, render_markdown_with_config};
use context_map::tree::{build_tree, path_parts, render_repo_tree};
use context_map::{
    FileResult, FunctionExport, RenderConfig, RenderProfile, RepoEntry, RunOutput, RunSummary,
};

fn entry(path: &str, is_dir: bool) -> RepoEntry {
    RepoEntry {
        path: path.to_string(),
        is_dir,
        depth: path.split('/').count(),
    }
}

fn drawn(entries: &[RepoEntry]) -> Vec<String> {
    render_repo_tree(&entries.to_vec())
        .into_iter()
        .map(|line| line.into_iter().collect())
        .collect()
}

#[test]
fn no_entries_draw_the_root_alone() {
    assert_eq!(drawn(&[]), vec!["."]);
}

#[test]
fn directories_are_drawn_before_files_each_by_name() {
    let entries = [
        entry("zeta.txt", false),
        entry("src", true),
        entry("src/main.ts", false),
        entry("src/lib", true),
        entry("src/lib/a.ts", false),
        entry("alpha.txt", false),
        entry("docs", true),
    ];
    assert_eq!(
        drawn(&entries),
        vec![
            ".",
            "├── docs",
            "├── src",
            "│   ├── lib",
            "│   │   └── a.ts",
            "│   └── main.ts",
            "├── alpha.txt",
            "└── zeta.txt",
        ]
    );
}

#[test]
fn missing_parents_are_directories_and_a_later_entry_decides() {
    let entries = [entry("a/b/c.ts", false), entry("a/b", false), entry("x", true)];
    assert_eq!(
        drawn(&entries),
        vec![".", "├── a", "│   └── b", "│       └── c.ts", "└── x"]
    );
    let tree = build_tree(&entries.to_vec());
    assert!(tree.is_dir);
    assert_eq!(tree.children.len(), 2);
    assert!(tree.children[0].is_dir);
    assert!(!tree.children[0].children[0].is_dir);
}

#[test]
fn empty_parts_of_a_path_are_left_out() {
    let parts: Vec<String> = path_parts("/a//b/")
        .into_iter()
        .map(|p| p.into_iter().collect())
        .collect();
    assert_eq!(parts, vec!["a", "b"]);
    assert!(path_parts("").is_empty());
    assert!(path_parts("///").is_empty());
    assert_eq!(drawn(&[entry("", true), entry("//", true)]), vec!["."]);
}

#[test]
fn run_without_exports_says_so() {
    let output = RunOutput {
        root_path: "/tmp/repo".to_string(),
        repo_entries: vec![],
        summary: RunSummary::default(),
        file_results: vec![FileResult {
            file_path: "src/a.ts".to_string(),
            function_exports: vec![],
            type_exports: vec![],
            parse_error: None,
        }],
    };
    assert_eq!(
        render_markdown(&output),
        "# Repository Structure\n```text\n.\n```\n\n# Exported Functions\nNo exported functions found.\n\n# Type Inventory\nNo exported types or interfaces found.\n"
    );
    let without_types = render_markdown_with_config(
        &output,
        RenderConfig {
            profile: RenderProfile::Compact,
            include_types: false,
            tree_depth: 1,
        },
    );
    assert_eq!(
        without_types,
        "# Repository Structure\n```text\n.\n```\n\n# Exported Functions\nNo exported functions found.\n"
    );
}

#[test]
fn balanced_profile_falls_back_to_the_name() {
    let output = RunOutput {
        root_path: "/tmp/repo".to_string(),
        repo_entries: vec![],
        summary: RunSummary::default(),
        file_results: vec![FileResult {
            file_path: "src/a.ts".to_string(),
            function_exports: vec![
                FunctionExport {
                    name: "odd".to_string(),
                    signature: "other(a)".to_string(),
                    file_path: "src/a.ts".to_string(),
                    line: 1,
                },
                FunctionExport {
                    name: "f".to_string(),
                    signature: "f(cb: (x: number) => void) : void".to_string(),
                    file_path: "src/a.ts".to_string(),
                    line: 2,
                },
            ],
            type_exports: vec![],
            parse_error: None,
        }],
    };
    let markdown = render_markdown(&output);
    assert!(markdown.contains("\n### `src/a.ts`\n- `odd`\n- `f(cb: (x: number) => void)`\n"));
}

#[test]
fn default_configuration_is_balanced_with_types() {
    let config = RenderConfig::default();
    assert_eq!(config.profile, RenderProfile::Balanced);
    assert!(config.include_types);
    assert_eq!(config.tree_depth, 10);
}
