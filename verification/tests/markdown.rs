use context_map::markdown::render_markdown_with_config;
use context_map::{
    FileResult, FunctionExport, RenderConfig, RenderProfile, RepoEntry, RunOutput, RunSummary,
    TypeExport,
};

fn sample_output() -> RunOutput {
    RunOutput {
        root_path: "/tmp/repo".to_string(),
        repo_entries: vec![
            RepoEntry {
                path: "Cargo.toml".to_string(),
                is_dir: false,
                depth: 1,
            },
            RepoEntry {
                path: "src".to_string(),
                is_dir: true,
                depth: 1,
            },
            RepoEntry {
                path: "src/a.ts".to_string(),
                is_dir: false,
                depth: 2,
            },
        ],
        summary: RunSummary {
            scanned: 3,
            parsed: 2,
            parse_failed: 1,
            exported_functions: 2,
            exported_types: 1,
        },
        file_results: vec![
            FileResult {
                file_path: "src/a.ts".to_string(),
                function_exports: vec![FunctionExport {
                    name: "a".to_string(),
                    signature: "a(\n  x: number,\n  y: number,\n) : string".to_string(),
                    file_path: "src/a.ts".to_string(),
                    line: 2,
                }],
                type_exports: vec![TypeExport {
                    name: "User".to_string(),
                    file_path: "src/a.ts".to_string(),
                    line: 10,
                }],
                parse_error: None,
            },
            FileResult {
                file_path: "src/c.ts".to_string(),
                function_exports: vec![],
                type_exports: vec![],
                parse_error: Some("syntax parse error".to_string()),
            },
        ],
    }
}

#[test]
fn compact_profile_is_token_lean() {
    let markdown = render_markdown_with_config(
        &sample_output(),
        RenderConfig {
            profile: RenderProfile::Compact,
            include_types: true,
            tree_depth: 10,
        },
    );

    assert!(markdown.contains("# Repository Structure"));
    assert!(markdown.contains("# Exported Functions"));
    assert!(markdown.contains("- `a`"));
    assert!(!markdown.contains("src/a.ts:2"));
    assert!(markdown.contains("# Type Inventory"));
    assert!(markdown.contains("- `User`"));
}

#[test]
fn balanced_profile_compacts_signatures() {
    let markdown = render_markdown_with_config(
        &sample_output(),
        RenderConfig {
            profile: RenderProfile::Balanced,
            include_types: true,
            tree_depth: 10,
        },
    );

    assert!(markdown.contains("- `a( x: number, y: number, )`"));
    assert!(!markdown.contains("@L2"));
    assert!(!markdown.contains("src/a.ts:2"));
}

#[test]
fn detailed_profile_adds_line_marker() {
    let markdown = render_markdown_with_config(
        &sample_output(),
        RenderConfig {
            profile: RenderProfile::Detailed,
            include_types: true,
            tree_depth: 10,
        },
    );

    assert!(markdown.contains("- `a( x: number, y: number, ) : string @L2`"));
    assert!(markdown.contains("- `User @L10`"));
}

#[test]
fn can_disable_type_inventory() {
    let markdown = render_markdown_with_config(
        &sample_output(),
        RenderConfig {
            profile: RenderProfile::Balanced,
            include_types: false,
            tree_depth: 10,
        },
    );

    assert!(!markdown.contains("# Type Inventory"));
}

#[test]
fn renders_the_whole_text_of_a_small_run() {
    let markdown = render_markdown_with_config(
        &sample_output(),
        RenderConfig {
            profile: RenderProfile::Detailed,
            include_types: true,
            tree_depth: 10,
        },
    );
    let expected = "# Repository Structure\n```text\n.\n├── src\n│   └── a.ts\n└── Cargo.toml\n```\n\n# Exported Functions\n\n### `src/a.ts`\n- `a( x: number, y: number, ) : string @L2`\n\n# Type Inventory\n\n### `src/a.ts`\n- `User @L10`\n\n## Parse Errors\n- `src/c.ts`: syntax parse error\n";
    assert_eq!(markdown, expected);
}
