use context_map::parser::TsExportParser;
use context_map::walker::SourceKind;

#[test]
fn detects_exported_function_declaration() {
    let mut parser = TsExportParser::new().expect("parser");
    let source = "export function greet(name: string): string { return name }";
    let exports = parser
        .extract_exports_for_source(source, &SourceKind::Ts)
        .expect("extract");

    assert_eq!(exports.functions.len(), 1);
    assert_eq!(exports.functions[0].name, "greet");
    assert_eq!(exports.functions[0].signature, "greet(name: string) : string");
}

#[test]
fn detects_exported_const_arrow_function() {
    let mut parser = TsExportParser::new().expect("parser");
    let source = "export const sum = (a: number, b: number): number => a + b;";
    let exports = parser
        .extract_exports_for_source(source, &SourceKind::Ts)
        .expect("extract");

    assert_eq!(exports.functions.len(), 1);
    assert_eq!(exports.functions[0].name, "sum");
    assert_eq!(exports.functions[0].signature, "sum(a: number, b: number) : number");
}

#[test]
fn detects_exported_types_and_interfaces() {
    let mut parser = TsExportParser::new().expect("parser");
    let source = "export interface User { id: string }\nexport type UserId = string;";
    let exports = parser
        .extract_exports_for_source(source, &SourceKind::Ts)
        .expect("extract");

    assert_eq!(exports.types.len(), 2);
    assert_eq!(exports.types[0].name, "User");
    assert_eq!(exports.types[1].name, "UserId");
}

#[test]
fn detects_exported_tsx_callable() {
    let mut parser = TsExportParser::new().expect("parser");
    let source = "export const Render = (name: string) => <div>{name}</div>;";
    let exports = parser
        .extract_exports_for_source(source, &SourceKind::Tsx)
        .expect("extract");

    assert_eq!(exports.functions.len(), 1);
    assert_eq!(exports.functions[0].name, "Render");
    assert_eq!(exports.functions[0].signature, "Render(name: string)");
}

#[test]
fn detects_exported_symbols_in_vue_script() {
    let mut parser = TsExportParser::new().expect("parser");
    let source = r#"
<template><div /></template>
<script lang="ts">
export function fromVue(input: string): string {
  return input;
}
export interface VueDto { id: string }
</script>
"#;
    let exports = parser
        .extract_exports_for_source(source, &SourceKind::Vue)
        .expect("extract");

    assert_eq!(exports.functions.len(), 1);
    assert_eq!(exports.functions[0].name, "fromVue");
    assert_eq!(exports.functions[0].line, 4);
    assert_eq!(exports.types.len(), 1);
    assert_eq!(exports.types[0].name, "VueDto");
    assert_eq!(exports.types[0].line, 7);
}

#[test]
fn ignores_non_exported_and_reexports() {
    let mut parser = TsExportParser::new().expect("parser");
    let source = r#"
interface Internal {}
export { Internal }
export type { ImportedType } from "./dep"
"#;
    let exports = parser
        .extract_exports_for_source(source, &SourceKind::Ts)
        .expect("extract");

    assert!(exports.functions.is_empty());
    assert!(exports.types.is_empty());
}

fn extract(source: &str, kind: SourceKind) -> Result<context_map::parser::ExtractedExports, String> {
    let mut parser = TsExportParser::new().expect("parser");
    parser.extract_exports_for_source(source, &kind)
}

#[test]
fn function_declaration_has_the_line_of_its_name() {
    let exports = extract(
        "// a comment\n\nexport function greet(name: string): string { return name }\n",
        SourceKind::Ts,
    )
    .expect("extract");
    assert_eq!(exports.functions.len(), 1);
    assert_eq!(exports.functions[0].name, "greet");
    assert_eq!(exports.functions[0].signature, "greet(name: string) : string");
    assert_eq!(exports.functions[0].line, 3);
}

#[test]
fn bare_arrow_parameter_gets_parentheses() {
    let exports = extract("export const id = x => x;", SourceKind::Ts).expect("extract");
    assert_eq!(exports.functions.len(), 1);
    assert_eq!(exports.functions[0].name, "id");
    assert_eq!(exports.functions[0].signature, "id(x)");
    assert_eq!(exports.functions[0].line, 1);
}

#[test]
fn function_expression_bound_to_const_is_a_callable() {
    let exports = extract(
        "export const twice = function (n: number): number { return n * 2 };",
        SourceKind::Ts,
    )
    .expect("extract");
    assert_eq!(exports.functions.len(), 1);
    assert_eq!(exports.functions[0].signature, "twice(n: number) : number");
}

#[test]
fn local_function_and_reexports_give_nothing() {
    let source = "function internalFn() {}\nexport { internalFn }\nexport { externalFn } from \"./dep\"\n";
    let exports = extract(source, SourceKind::Ts).expect("extract");
    assert!(exports.functions.is_empty());
    assert!(exports.types.is_empty());
}

#[test]
fn let_var_class_enum_and_default_values_are_skipped() {
    let source = "export let a = () => 1;\nexport var b = () => 2;\nexport class K {}\nexport enum E { A }\nexport default () => 5;\nexport const n = 1, f = () => n;\n";
    let exports = extract(source, SourceKind::Ts).expect("extract");
    let names: Vec<&str> = exports.functions.iter().map(|f| f.name.as_str()).collect();
    assert_eq!(names, vec!["f"]);
    assert_eq!(exports.functions[0].signature, "f()");
    assert_eq!(exports.functions[0].line, 6);
    assert!(exports.types.is_empty());
}

#[test]
fn parameter_text_is_kept_as_it_is_written() {
    let source = "export function wide(\n  a: number,\n  b: string,\n): void {}\n";
    let exports = extract(source, SourceKind::Ts).expect("extract");
    assert_eq!(
        exports.functions[0].signature,
        "wide(\n  a: number,\n  b: string,\n) : void"
    );
}

#[test]
fn vue_line_is_that_of_the_whole_file() {
    let source = "<template><div /></template>\n<script lang=\"ts\">\n\nexport function fromVue(id: string): string { return id }\n\n</script>\n";
    let exports = extract(source, SourceKind::Vue).expect("extract");
    assert_eq!(exports.functions.len(), 1);
    assert_eq!(exports.functions[0].name, "fromVue");
    assert_eq!(exports.functions[0].line, 4);
}

#[test]
fn vue_regions_are_merged_and_put_in_order() {
    let source = "<script setup lang=\"tsx\">\nexport const View = (label: string) => <b>{label}</b>;\nexport const zeta = () => 1; export const alpha = () => 2;\n</script>\n<script src=\"./other.ts\"></script>\n<script>\nexport interface Dto { id: string }\nexport function last() {}\n</script>\n";
    let exports = extract(source, SourceKind::Vue).expect("extract");
    let functions: Vec<(&str, usize)> = exports
        .functions
        .iter()
        .map(|f| (f.name.as_str(), f.line))
        .collect();
    assert_eq!(
        functions,
        vec![("View", 2), ("alpha", 3), ("zeta", 3), ("last", 8)]
    );
    assert_eq!(exports.types.len(), 1);
    assert_eq!(exports.types[0].name, "Dto");
    assert_eq!(exports.types[0].line, 7);
}

#[test]
fn vue_without_script_exports_nothing() {
    let exports = extract("<template><div /></template>\n", SourceKind::Vue).expect("extract");
    assert!(exports.functions.is_empty());
    assert!(exports.types.is_empty());
}

#[test]
fn vue_fails_as_a_whole_when_one_region_fails() {
    let source = "<script>\nexport function fine() {}\n</script>\n<script>\nexport function bad( {\n</script>\n";
    assert_eq!(
        extract(source, SourceKind::Vue),
        Err("syntax parse error".to_string())
    );
}

#[test]
fn unbalanced_braces_are_a_parse_failure_without_exports() {
    assert_eq!(
        extract("export function bad( {", SourceKind::Ts),
        Err("syntax parse error".to_string())
    );
    assert_eq!(
        extract("export function fine() {}\nexport function bad( {\n", SourceKind::Ts),
        Err("syntax parse error".to_string())
    );
}

#[test]
fn jsx_is_an_error_for_the_plain_grammar_only() {
    let source = "export const Render = (name: string) => <div>{name}</div>;";
    assert!(extract(source, SourceKind::Tsx).is_ok());
    assert_eq!(
        extract(source, SourceKind::Ts),
        Err("syntax parse error".to_string())
    );
}

#[test]
fn output_is_in_the_order_of_line_and_name() {
    let source = "export function zeta() {} export function alpha() {}\nexport const mid = () => 1;\nexport type B = string; export type A = number;\n";
    let exports = extract(source, SourceKind::Ts).expect("extract");
    let functions: Vec<(&str, usize)> = exports
        .functions
        .iter()
        .map(|f| (f.name.as_str(), f.line))
        .collect();
    assert_eq!(functions, vec![("alpha", 1), ("zeta", 1), ("mid", 2)]);
    let types: Vec<(&str, usize)> = exports.types.iter().map(|t| (t.name.as_str(), t.line)).collect();
    assert_eq!(types, vec![("A", 3), ("B", 3)]);

    let swapped = "export const mid = () => 1;\nexport function zeta() {} export function alpha() {}\n";
    let exports = extract(swapped, SourceKind::Ts).expect("extract");
    let functions: Vec<(&str, usize)> = exports
        .functions
        .iter()
        .map(|f| (f.name.as_str(), f.line))
        .collect();
    assert_eq!(functions, vec![("mid", 1), ("alpha", 2), ("zeta", 2)]);
}

#[test]
fn extraction_twice_gives_the_same_result() {
    let mut parser = TsExportParser::new().expect("parser");
    let source = "export function greet(name: string): string { return name }\nexport interface User { id: string }\n";
    let first = parser.extract_exports_for_source(source, &SourceKind::Ts);
    let failed = parser.extract_exports_for_source("export function bad( {", &SourceKind::Ts);
    let second = parser.extract_exports_for_source(source, &SourceKind::Ts);
    assert!(failed.is_err());
    assert!(first.is_ok());
    assert_eq!(first, second);
    let other = TsExportParser::new()
        .expect("parser")
        .extract_exports_for_source(source, &SourceKind::Ts);
    assert_eq!(first, other);
}

#[test]
fn empty_text_exports_nothing() {
    for kind in [SourceKind::Ts, SourceKind::Tsx, SourceKind::Vue] {
        let exports = extract("", kind).expect("extract");
        assert!(exports.functions.is_empty());
        assert!(exports.types.is_empty());
    }
}

#[test]
fn names_with_characters_of_several_bytes_are_read_whole() {
    let source = "// \u{4e2d}\u{6587}\nexport function caf\u{e9}(na\u{ef}ve: string): string { return na\u{ef}ve }\n";
    let exports = extract(source, SourceKind::Ts).expect("extract");
    assert_eq!(exports.functions[0].name, "caf\u{e9}");
    assert_eq!(
        exports.functions[0].signature,
        "caf\u{e9}(na\u{ef}ve: string) : string"
    );
    assert_eq!(exports.functions[0].line, 2);
}

#[test]
fn default_export_counts_by_the_shape_of_what_it_exports() {
    let exports = extract("export default function d(a: number) {}\n", SourceKind::Ts).expect("extract");
    let names: Vec<&str> = exports.functions.iter().map(|f| f.name.as_str()).collect();
    assert_eq!(names, vec!["d"]);
    let exports = extract("const v = 1;\nexport default v;\n", SourceKind::Ts).expect("extract");
    assert!(exports.functions.is_empty());
    let exports = extract("export default function () {}\n", SourceKind::Ts).expect("extract");
    assert!(exports.functions.is_empty());
}

#[test]
fn parsers_read_with_the_grammars_they_are_given() {
    let plain = tree_sitter_typescript::language_typescript();
    let jsx = tree_sitter_typescript::language_tsx();
    let source = "export const Render = (name: string) => <div>{name}</div>;";

    let mut usual = TsExportParser::with_languages(&plain, &jsx).expect("parser");
    assert!(usual.extract_exports_for_source(source, &SourceKind::Tsx).is_ok());
    assert_eq!(
        usual.extract_exports_for_source(source, &SourceKind::Ts),
        Err("syntax parse error".to_string())
    );

    let mut turned = TsExportParser::with_languages(&jsx, &plain).expect("parser");
    assert!(turned.extract_exports_for_source(source, &SourceKind::Ts).is_ok());
    assert_eq!(
        turned.extract_exports_for_source(source, &SourceKind::Tsx),
        Err("syntax parse error".to_string())
    );
}

#[test]
fn grammars_of_a_version_that_is_read_give_a_parser() {
    for grammar in [
        tree_sitter_typescript::language_typescript(),
        tree_sitter_typescript::language_tsx(),
    ] {
        assert!(grammar.version() >= tree_sitter::MIN_COMPATIBLE_LANGUAGE_VERSION);
        assert!(grammar.version() <= tree_sitter::LANGUAGE_VERSION);
    }
    assert_eq!(
        tree_sitter::MIN_COMPATIBLE_LANGUAGE_VERSION,
        context_map::provider::OLDEST_LANGUAGE_VERSION
    );
    assert_eq!(
        tree_sitter::LANGUAGE_VERSION,
        context_map::provider::NEWEST_LANGUAGE_VERSION
    );
    assert!(TsExportParser::new().is_ok());
}

#[test]
fn two_trees_of_one_text_are_read_alike() {
    let mut parser = TsExportParser::new().expect("parser");
    let source = "export const f = (a: number): number => a;\nexport interface I { a: number }\n";
    let mut results = Vec::new();
    for _ in 0..3 {
        results.push(parser.extract_exports_for_source(source, &SourceKind::Ts));
    }
    assert!(results[0].is_ok());
    assert_eq!(results[0], results[1]);
    assert_eq!(results[1], results[2]);
}
