use context_map::parser::{ExtractedExports, ExtractedFunction, ExtractedType, TsExportParser};
use context_map::run::{generate_context_map, file_result_of, LoadedFile};
use context_map::walker::{RepoEntry, SourceKind};
use context_map::{ContextMapError, FileResult, FunctionExport, RunSummary, TypeExport};

#[test]
fn file_result_of_exports_carries_the_path_and_orders_them() {
    let extracted = ExtractedExports {
        functions: vec![
            ExtractedFunction { name: "b".to_string(), signature: "b()".to_string(), line: 3 },
            ExtractedFunction { name: "a".to_string(), signature: "a()".to_string(), line: 3 },
            ExtractedFunction { name: "z".to_string(), signature: "z()".to_string(), line: 1 },
        ],
        types: vec![ExtractedType { name: "T".to_string(), line: 2 }],
    };
    let result = file_result_of("src/a.ts".to_string(), Ok(extracted));
    let export = |name: &str, line: usize| FunctionExport {
        name: name.to_string(),
        signature: format!("{}()", name),
        file_path: "src/a.ts".to_string(),
        line,
    };
    assert_eq!(
        result,
        FileResult {
            file_path: "src/a.ts".to_string(),
            function_exports: vec![export("z", 1), export("a", 3), export("b", 3)],
            type_exports: vec![TypeExport {
                name: "T".to_string(),
                file_path: "src/a.ts".to_string(),
                line: 2,
            }],
            parse_error: None,
        }
    );
}

#[test]
fn file_result_of_a_failure_has_the_message_and_no_exports() {
    let result = file_result_of("src/c.ts".to_string(), Err("syntax parse error".to_string()));
    assert_eq!(
        result,
        FileResult {
            file_path: "src/c.ts".to_string(),
            function_exports: vec![],
            type_exports: vec![],
            parse_error: Some("syntax parse error".to_string()),
        }
    );
}

fn loaded(path: &str, kind: SourceKind, text: &str) -> LoadedFile {
    LoadedFile {
        relative_path: path.to_string(),
        kind,
        content: Ok(text.to_string()),
    }
}

#[test]
fn run_counts_and_orders_what_the_files_export() {
    let files = vec![
        loaded(
            "src/valid.ts",
            SourceKind::Ts,
            "export function hello(name: string): string { return name }\n",
        ),
        loaded(
            "src/callable.ts",
            SourceKind::Ts,
            "export const sum = (a: number, b: number): number => a + b;\nexport interface SumInput { a: number; b: number }\n",
        ),
        loaded(
            "src/component.tsx",
            SourceKind::Tsx,
            "export const Render = (label: string) => <span>{label}</span>;\n",
        ),
        loaded(
            "src/view.vue",
            SourceKind::Vue,
            "<template><div /></template>\n<script lang=\"ts\">\nexport function fromVue(id: string): string { return id }\nexport type VueId = string\n</script>\n",
        ),
        loaded("src/kept.props.tsx", SourceKind::Tsx, "export const Kept = () => <div />;\n"),
        loaded("src/invalid.ts", SourceKind::Ts, "export function bad( {\n"),
        LoadedFile {
            relative_path: "src/gone.ts".to_string(),
            kind: SourceKind::Ts,
            content: Err("No such file or directory (os error 2)".to_string()),
        },
    ];
    let entries = vec![RepoEntry { path: "src".to_string(), is_dir: true, depth: 1 }];
    let mut parser = TsExportParser::new().expect("parser");
    let output = generate_context_map(&mut parser, "/repo".to_string(), entries.clone(), &files);

    assert_eq!(output.root_path, "/repo");
    assert_eq!(output.repo_entries, entries);
    assert_eq!(
        output.summary,
        RunSummary {
            scanned: 7,
            parsed: 5,
            parse_failed: 2,
            exported_functions: 5,
            exported_types: 2,
        }
    );
    let paths: Vec<&str> = output.file_results.iter().map(|f| f.file_path.as_str()).collect();
    assert_eq!(
        paths,
        vec![
            "src/callable.ts",
            "src/component.tsx",
            "src/gone.ts",
            "src/invalid.ts",
            "src/kept.props.tsx",
            "src/valid.ts",
            "src/view.vue",
        ]
    );
    assert_eq!(output.file_results[0].function_exports.len(), 1);
    assert_eq!(output.file_results[0].function_exports[0].file_path, "src/callable.ts");
    assert_eq!(output.file_results[0].type_exports[0].name, "SumInput");
    assert_eq!(output.file_results[0].type_exports[0].line, 2);
    assert_eq!(
        output.file_results[2].parse_error,
        Some("No such file or directory (os error 2)".to_string())
    );
    assert_eq!(output.file_results[3].parse_error, Some("syntax parse error".to_string()));
    assert!(output.file_results[3].function_exports.is_empty());
    assert!(output.file_results[3].type_exports.is_empty());
    assert_eq!(output.file_results[6].type_exports[0].name, "VueId");
    assert_eq!(output.file_results[6].type_exports[0].line, 4);

    let markdown = context_map::markdown::render_markdown(&output);
    assert!(markdown.contains("- `hello(name: string)`"));
    assert!(markdown.contains("- `sum(a: number, b: number)`"));
    assert!(markdown.contains("## Parse Errors"));
    assert!(markdown.contains("- `src/invalid.ts`: syntax parse error"));
}

#[test]
fn run_without_files_counts_nothing() {
    let mut parser = TsExportParser::new().expect("parser");
    let output = generate_context_map(&mut parser, String::new(), vec![], &vec![]);
    assert_eq!(output.summary, RunSummary::default());
    assert!(output.file_results.is_empty());
}

#[test]
fn each_error_has_its_message() {
    assert_eq!(
        ContextMapError::InvalidRoot("/no/such".to_string()).message(),
        "invalid root path: /no/such"
    );
    assert_eq!(
        ContextMapError::ParserInit("Incompatible language version 3".to_string()).message(),
        "failed to initialize parser: Incompatible language version 3"
    );
    assert_eq!(
        ContextMapError::Io("permission denied".to_string()).message(),
        "io error: permission denied"
    );
}

#[test]
fn run_gives_the_output_and_its_rendering() {
    let files = vec![loaded(
        "src/valid.ts",
        SourceKind::Ts,
        "export function hello(name: string): string { return name }\n",
    )];
    let entries = vec![
        RepoEntry { path: "src".to_string(), is_dir: true, depth: 1 },
        RepoEntry { path: "src/valid.ts".to_string(), is_dir: false, depth: 2 },
    ];
    let mut parser = TsExportParser::new().expect("parser");
    let (output, markdown) = context_map::run(&mut parser, "/repo".to_string(), entries.clone(), &files);
    assert_eq!(output.summary.exported_functions, 1);
    assert_eq!(
        markdown,
        "# Repository Structure\n```text\n.\n└── src\n    └── valid.ts\n```\n\n# Exported Functions\n\n### `src/valid.ts`\n- `hello(name: string)`\n\n# Type Inventory\nNo exported types or interfaces found.\n"
    );
    let (_, detailed) = context_map::run_with_config(
        &mut parser,
        "/repo".to_string(),
        entries,
        &files,
        context_map::RenderConfig {
            profile: context_map::RenderProfile::Detailed,
            include_types: false,
            tree_depth: 10,
        },
    );
    assert!(detailed.contains("- `hello(name: string) : string @L1`"));
    assert!(!detailed.contains("# Type Inventory"));
}

#[test]
fn run_records_paths_with_slashes_each_before_the_next() {
    let files = vec![
        loaded("src\\nested\\util.ts", SourceKind::Ts, "export function nested() {}\n"),
        loaded("src/index.ts", SourceKind::Ts, "export function ok() {}\n"),
        loaded("src\\a-b.ts", SourceKind::Ts, "export type T = string\n"),
        loaded("lib/z.ts", SourceKind::Ts, ""),
    ];
    let mut parser = TsExportParser::new().expect("parser");
    let output = context_map::generate_context_map(&mut parser, "/repo".to_string(), vec![], &files);
    let paths: Vec<&str> = output.file_results.iter().map(|f| f.file_path.as_str()).collect();
    assert_eq!(
        paths,
        vec!["lib/z.ts", "src/a-b.ts", "src/index.ts", "src/nested/util.ts"]
    );
    for pair in paths.windows(2) {
        assert!(pair[0] < pair[1]);
    }
    for result in &output.file_results {
        assert!(!result.file_path.contains('\\'));
        for export in &result.function_exports {
            assert_eq!(export.file_path, result.file_path);
        }
        for export in &result.type_exports {
            assert_eq!(export.file_path, result.file_path);
        }
    }
    assert_eq!(output.file_results[3].function_exports[0].file_path, "src/nested/util.ts");
}

#[test]
fn files_recorded_under_one_path_keep_the_order_they_came_in() {
    let files = vec![
        loaded("src\\a.ts", SourceKind::Ts, "export function second() {}\n"),
        loaded("src/a.ts", SourceKind::Ts, "export function first() {}\n"),
        loaded("a.ts", SourceKind::Ts, ""),
    ];
    let mut parser = TsExportParser::new().expect("parser");
    let output = context_map::generate_context_map(&mut parser, String::new(), vec![], &files);
    let found: Vec<(&str, usize)> = output
        .file_results
        .iter()
        .map(|f| (f.file_path.as_str(), f.function_exports.len()))
        .collect();
    assert_eq!(found, vec![("a.ts", 0), ("src/a.ts", 1), ("src/a.ts", 1)]);
    assert_eq!(output.file_results[1].function_exports[0].name, "second");
    assert_eq!(output.file_results[2].function_exports[0].name, "first");
}
