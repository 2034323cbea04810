use context_map::parser::{
    exports_of_outcome, extract_from_tree, shift_lines, sort_functions, ExtractedExports,
    ExtractedFunction, ExtractedType, ParseOutcome,
};
use context_map::syntax::{FieldName, NodeKind, SyntaxNode};

fn node(
    kind: NodeKind,
    field: Option<FieldName>,
    named: bool,
    span: (usize, usize),
    row: usize,
    children: Vec<SyntaxNode>,
) -> SyntaxNode {
    SyntaxNode {
        kind,
        field,
        named,
        start_byte: span.0,
        end_byte: span.1,
        row,
        children,
    }
}

fn span_of(source: &str, part: &str) -> (usize, usize) {
    let start = source.find(part).expect("part of the source");
    (start, start + part.len())
}

fn leaf(source: &str, kind: NodeKind, field: Option<FieldName>, part: &str, row: usize) -> SyntaxNode {
    node(kind, field, true, span_of(source, part), row, vec![])
}

fn token(source: &str, part: &str, row: usize) -> SyntaxNode {
    node(NodeKind::Other, None, false, span_of(source, part), row, vec![])
}

fn program(source: &str, children: Vec<SyntaxNode>) -> SyntaxNode {
    node(NodeKind::Other, None, true, (0, source.len()), 0, children)
}

fn export_statement(source: &str, row: usize, children: Vec<SyntaxNode>) -> SyntaxNode {
    node(NodeKind::ExportStatement, None, true, (0, source.len()), row, children)
}

fn function(name: &str, signature: &str, line: usize) -> ExtractedFunction {
    ExtractedFunction {
        name: name.to_string(),
        signature: signature.to_string(),
        line,
    }
}

#[test]
fn function_declaration_gives_name_signature_and_line() {
    let source = "export function greet(name: string): string { return name }";
    let declaration = node(
        NodeKind::FunctionDeclaration,
        None,
        true,
        (7, source.len()),
        0,
        vec![
            token(source, "function", 0),
            leaf(source, NodeKind::Identifier, Some(FieldName::Name), "greet", 0),
            leaf(source, NodeKind::Other, Some(FieldName::Parameters), "(name: string)", 0),
            leaf(source, NodeKind::Other, Some(FieldName::ReturnType), ": string", 0),
            leaf(source, NodeKind::Other, None, "{ return name }", 0),
        ],
    );
    let root = program(
        source,
        vec![export_statement(source, 0, vec![token(source, "export", 0), declaration])],
    );
    let exports = extract_from_tree(&root, source);
    assert_eq!(
        exports.functions,
        vec![function("greet", "greet(name: string) : string", 1)]
    );
    assert!(exports.types.is_empty());
}

#[test]
fn function_without_return_type_has_no_trailing_part() {
    let source = "export function run() {}";
    let declaration = node(
        NodeKind::FunctionDeclaration,
        None,
        true,
        (7, source.len()),
        0,
        vec![
            leaf(source, NodeKind::Identifier, Some(FieldName::Name), "run", 0),
            leaf(source, NodeKind::Other, Some(FieldName::Parameters), "()", 0),
        ],
    );
    let root = program(source, vec![export_statement(source, 0, vec![declaration])]);
    let exports = extract_from_tree(&root, source);
    assert_eq!(exports.functions, vec![function("run", "run()", 1)]);
}

#[test]
fn function_without_parameter_node_gets_empty_list() {
    let source = "export function run";
    let declaration = node(
        NodeKind::FunctionDeclaration,
        None,
        true,
        (7, source.len()),
        0,
        vec![leaf(source, NodeKind::Identifier, Some(FieldName::Name), "run", 0)],
    );
    let root = program(source, vec![export_statement(source, 0, vec![declaration])]);
    let exports = extract_from_tree(&root, source);
    assert_eq!(exports.functions, vec![function("run", "run()", 1)]);
}

#[test]
fn function_without_name_is_left_out() {
    let source = "export function () {}";
    let declaration = node(
        NodeKind::FunctionDeclaration,
        None,
        true,
        (7, source.len()),
        0,
        vec![leaf(source, NodeKind::Other, Some(FieldName::Parameters), "()", 0)],
    );
    let root = program(source, vec![export_statement(source, 0, vec![declaration])]);
    let exports = extract_from_tree(&root, source);
    assert!(exports.functions.is_empty());
}

fn declarator(source: &str, name: SyntaxNode, value: SyntaxNode) -> SyntaxNode {
    node(
        NodeKind::VariableDeclarator,
        None,
        true,
        (name.start_byte, value.end_byte),
        name.row,
        vec![name, token(source, "=", 0), value],
    )
}

fn lexical(source: &str, keyword: &str, declarators: Vec<SyntaxNode>) -> SyntaxNode {
    let mut children = vec![token(source, keyword, 0)];
    children.extend(declarators);
    node(
        NodeKind::LexicalDeclaration,
        None,
        true,
        (7, source.len()),
        0,
        children,
    )
}

#[test]
fn const_arrow_function_with_return_type() {
    let source = "export const sum = (a: number, b: number): number => a + b;";
    let arrow = node(
        NodeKind::ArrowFunction,
        Some(FieldName::Value),
        true,
        span_of(source, "(a: number, b: number): number => a + b"),
        0,
        vec![
            leaf(source, NodeKind::Other, Some(FieldName::Parameters), "(a: number, b: number)", 0),
            leaf(source, NodeKind::Other, Some(FieldName::ReturnType), ": number", 0),
            token(source, "=>", 0),
        ],
    );
    let name = leaf(source, NodeKind::Identifier, Some(FieldName::Name), "sum", 0);
    let root = program(
        source,
        vec![export_statement(
            source,
            0,
            vec![lexical(source, "const", vec![declarator(source, name, arrow)])],
        )],
    );
    let exports = extract_from_tree(&root, source);
    assert_eq!(
        exports.functions,
        vec![function("sum", "sum(a: number, b: number) : number", 1)]
    );
}

#[test]
fn bare_arrow_parameter_is_put_in_parentheses() {
    let source = "export const id = x => x;";
    let arrow = node(
        NodeKind::ArrowFunction,
        Some(FieldName::Value),
        true,
        span_of(source, "x => x"),
        0,
        vec![node(
            NodeKind::Identifier,
            Some(FieldName::Parameter),
            true,
            (18, 19),
            0,
            vec![],
        )],
    );
    let name = leaf(source, NodeKind::Identifier, Some(FieldName::Name), "id", 0);
    let root = program(
        source,
        vec![export_statement(
            source,
            0,
            vec![lexical(source, "const", vec![declarator(source, name, arrow)])],
        )],
    );
    let exports = extract_from_tree(&root, source);
    assert_eq!(exports.functions, vec![function("id", "id(x)", 1)]);
}

#[test]
fn arrow_without_any_parameter_node_gets_empty_list() {
    let source = "export const f = => 1";
    let arrow = node(
        NodeKind::ArrowFunction,
        Some(FieldName::Value),
        true,
        span_of(source, "=> 1"),
        0,
        vec![],
    );
    let name = leaf(source, NodeKind::Identifier, Some(FieldName::Name), "f", 0);
    let root = program(
        source,
        vec![export_statement(
            source,
            0,
            vec![lexical(source, "const", vec![declarator(source, name, arrow)])],
        )],
    );
    let exports = extract_from_tree(&root, source);
    assert_eq!(exports.functions, vec![function("f", "f()", 1)]);
}

#[test]
fn const_function_expression_is_a_callable() {
    let source = "export const twice = function (n: number): number { return n * 2 };";
    let value = node(
        NodeKind::FunctionExpression,
        Some(FieldName::Value),
        true,
        span_of(source, "function (n: number): number { return n * 2 }"),
        0,
        vec![
            leaf(source, NodeKind::Other, Some(FieldName::Parameters), "(n: number)", 0),
            leaf(source, NodeKind::Other, Some(FieldName::ReturnType), ": number", 0),
        ],
    );
    let name = leaf(source, NodeKind::Identifier, Some(FieldName::Name), "twice", 0);
    let root = program(
        source,
        vec![export_statement(
            source,
            0,
            vec![lexical(source, "const", vec![declarator(source, name, value)])],
        )],
    );
    let exports = extract_from_tree(&root, source);
    assert_eq!(
        exports.functions,
        vec![function("twice", "twice(n: number) : number", 1)]
    );
}

#[test]
fn let_declarations_are_never_entered() {
    let source = "export let id = x => x;";
    let arrow = node(
        NodeKind::ArrowFunction,
        Some(FieldName::Value),
        true,
        span_of(source, "x => x"),
        0,
        vec![node(
            NodeKind::Identifier,
            Some(FieldName::Parameter),
            true,
            (16, 17),
            0,
            vec![],
        )],
    );
    let name = leaf(source, NodeKind::Identifier, Some(FieldName::Name), "id", 0);
    let root = program(
        source,
        vec![export_statement(
            source,
            0,
            vec![lexical(source, "let", vec![declarator(source, name, arrow)])],
        )],
    );
    let exports = extract_from_tree(&root, source);
    assert!(exports.functions.is_empty());
    assert!(exports.types.is_empty());
}

#[test]
fn declarators_of_other_shapes_are_skipped() {
    let source = "export const n = 1, { a } = f, g = () => 2;";
    let literal = leaf(source, NodeKind::Other, Some(FieldName::Value), "1", 0);
    let n = leaf(source, NodeKind::Identifier, Some(FieldName::Name), "n", 0);
    let pattern = leaf(source, NodeKind::Other, Some(FieldName::Name), "{ a }", 0);
    let call = node(
        NodeKind::ArrowFunction,
        Some(FieldName::Value),
        true,
        span_of(source, "f,"),
        0,
        vec![],
    );
    let g = leaf(source, NodeKind::Identifier, Some(FieldName::Name), "g", 0);
    let arrow = node(
        NodeKind::ArrowFunction,
        Some(FieldName::Value),
        true,
        span_of(source, "() => 2"),
        0,
        vec![leaf(source, NodeKind::Other, Some(FieldName::Parameters), "()", 0)],
    );
    let root = program(
        source,
        vec![export_statement(
            source,
            0,
            vec![lexical(
                source,
                "const",
                vec![
                    declarator(source, n, literal),
                    declarator(source, pattern, call),
                    declarator(source, g, arrow),
                ],
            )],
        )],
    );
    let exports = extract_from_tree(&root, source);
    assert_eq!(exports.functions, vec![function("g", "g()", 1)]);
}

#[test]
fn interface_and_type_alias_give_types() {
    let source = "export interface User { id: string }\nexport type UserId = string;";
    let interface = node(
        NodeKind::InterfaceDeclaration,
        None,
        true,
        (7, 36),
        0,
        vec![leaf(source, NodeKind::Other, Some(FieldName::Name), "User", 0)],
    );
    let alias = node(
        NodeKind::TypeAliasDeclaration,
        None,
        true,
        (44, source.len()),
        1,
        vec![leaf(source, NodeKind::Other, Some(FieldName::Name), "UserId", 1)],
    );
    let root = program(
        source,
        vec![
            export_statement(source, 0, vec![interface]),
            export_statement(source, 1, vec![alias]),
        ],
    );
    let exports = extract_from_tree(&root, source);
    assert!(exports.functions.is_empty());
    assert_eq!(
        exports.types,
        vec![
            ExtractedType { name: "User".to_string(), line: 1 },
            ExtractedType { name: "UserId".to_string(), line: 2 },
        ]
    );
}

#[test]
fn clauses_namespaces_and_other_shapes_give_nothing() {
    let source = "function internalFn() {}\nexport { internalFn }\nexport * as ns from \"./dep\"\nexport class K {}";
    let plain = node(
        NodeKind::FunctionDeclaration,
        None,
        true,
        (0, 24),
        0,
        vec![
            leaf(source, NodeKind::Identifier, Some(FieldName::Name), "internalFn", 0),
            leaf(source, NodeKind::Other, Some(FieldName::Parameters), "()", 0),
        ],
    );
    let clause = leaf(source, NodeKind::ExportClause, None, "{ internalFn }", 1);
    let namespace = leaf(source, NodeKind::NamespaceExport, None, "* as ns", 2);
    let class = leaf(source, NodeKind::Other, None, "class K {}", 3);
    let root = program(
        source,
        vec![
            plain,
            export_statement(source, 1, vec![token(source, "export", 1), clause]),
            export_statement(source, 2, vec![namespace]),
            export_statement(source, 3, vec![class]),
        ],
    );
    let exports = extract_from_tree(&root, source);
    assert!(exports.functions.is_empty());
    assert!(exports.types.is_empty());
}

#[test]
fn exports_nested_below_the_top_level_are_not_collected() {
    let source = "export function outer() {}";
    let declaration = node(
        NodeKind::FunctionDeclaration,
        None,
        true,
        (7, source.len()),
        0,
        vec![
            leaf(source, NodeKind::Identifier, Some(FieldName::Name), "outer", 0),
            leaf(source, NodeKind::Other, Some(FieldName::Parameters), "()", 0),
        ],
    );
    let nested = export_statement(source, 0, vec![declaration]);
    let block = node(NodeKind::Other, None, true, (0, source.len()), 0, vec![nested]);
    let root = program(source, vec![block]);
    let exports = extract_from_tree(&root, source);
    assert!(exports.functions.is_empty());
}

fn two_functions(source: &str, first: (&str, usize), second: (&str, usize)) -> SyntaxNode {
    let make = |name: &str, row: usize| {
        export_statement(
            source,
            row,
            vec![node(
                NodeKind::FunctionDeclaration,
                None,
                true,
                (0, source.len()),
                row,
                vec![
                    leaf(source, NodeKind::Identifier, Some(FieldName::Name), name, row),
                    leaf(source, NodeKind::Other, Some(FieldName::Parameters), "()", row),
                ],
            )],
        )
    };
    program(source, vec![make(first.0, first.1), make(second.0, second.1)])
}

#[test]
fn output_is_ordered_by_line_then_name_whatever_the_tree_order() {
    let source = "export function beta() {}\nexport function alpha() {}";
    let listed = two_functions(source, ("beta", 0), ("alpha", 1));
    let swapped = two_functions(source, ("alpha", 1), ("beta", 0));
    let expected = vec![function("beta", "beta()", 1), function("alpha", "alpha()", 2)];
    assert_eq!(extract_from_tree(&listed, source).functions, expected);
    assert_eq!(extract_from_tree(&swapped, source).functions, expected);

    let same_line = "export function beta() {} export function alpha() {}";
    let tree = two_functions(same_line, ("beta", 0), ("alpha", 0));
    assert_eq!(
        extract_from_tree(&tree, same_line).functions,
        vec![function("alpha", "alpha()", 1), function("beta", "beta()", 1)]
    );
}

#[test]
fn extraction_of_one_tree_repeats() {
    let source = "export function beta() {}\nexport function alpha() {}";
    let tree = two_functions(source, ("beta", 0), ("alpha", 1));
    assert_eq!(extract_from_tree(&tree, source), extract_from_tree(&tree, source));
}

#[test]
fn return_type_is_trimmed_and_name_text_is_kept_as_it_is() {
    let source = "export function caf\u{e9}(a)  :  string\u{a0} {}";
    let start = source.find("  :").unwrap();
    let end = source.find(" {}").unwrap();
    let declaration = node(
        NodeKind::FunctionDeclaration,
        None,
        true,
        (7, source.len()),
        0,
        vec![
            leaf(source, NodeKind::Identifier, Some(FieldName::Name), "caf\u{e9}", 0),
            leaf(source, NodeKind::Other, Some(FieldName::Parameters), "(a)", 0),
            node(NodeKind::Other, Some(FieldName::ReturnType), true, (start, end), 0, vec![]),
        ],
    );
    let root = program(source, vec![export_statement(source, 0, vec![declaration])]);
    let exports = extract_from_tree(&root, source);
    assert_eq!(
        exports.functions,
        vec![function("caf\u{e9}", "caf\u{e9}(a) :  string", 1)]
    );
}

#[test]
fn outcome_without_tree_is_a_parse_failure() {
    let r = exports_of_outcome(&ParseOutcome::Unreadable, "export function a() {}");
    assert_eq!(r, Err("failed to parse file".to_string()));
}

#[test]
fn outcome_with_syntax_error_gives_no_partial_exports() {
    let r = exports_of_outcome(&ParseOutcome::SyntaxError, "export function bad( {");
    assert_eq!(r, Err("syntax parse error".to_string()));
}

#[test]
fn tree_that_is_not_of_the_text_is_a_parse_failure() {
    let source = "caf\u{e9}";
    let beyond = program(source, vec![node(NodeKind::Other, None, true, (0, 99), 0, vec![])]);
    assert_eq!(
        exports_of_outcome(&ParseOutcome::Tree(beyond), source),
        Err("failed to parse file".to_string())
    );
    let inside_a_character = program(source, vec![node(NodeKind::Other, None, true, (0, 4), 0, vec![])]);
    assert_eq!(
        exports_of_outcome(&ParseOutcome::Tree(inside_a_character), source),
        Err("failed to parse file".to_string())
    );
    let backwards = program(source, vec![node(NodeKind::Other, None, true, (3, 1), 0, vec![])]);
    assert_eq!(
        exports_of_outcome(&ParseOutcome::Tree(backwards), source),
        Err("failed to parse file".to_string())
    );
    let last_row = program(source, vec![node(NodeKind::Other, None, true, (0, 1), usize::MAX, vec![])]);
    assert_eq!(
        exports_of_outcome(&ParseOutcome::Tree(last_row), source),
        Err("failed to parse file".to_string())
    );
}

#[test]
fn tree_of_the_text_gives_its_exports() {
    let source = "export function run() {}";
    let declaration = node(
        NodeKind::FunctionDeclaration,
        None,
        true,
        (7, source.len()),
        0,
        vec![
            leaf(source, NodeKind::Identifier, Some(FieldName::Name), "run", 0),
            leaf(source, NodeKind::Other, Some(FieldName::Parameters), "()", 0),
        ],
    );
    let root = program(source, vec![export_statement(source, 0, vec![declaration])]);
    let r = exports_of_outcome(&ParseOutcome::Tree(root), source);
    assert_eq!(
        r,
        Ok(ExtractedExports {
            functions: vec![function("run", "run()", 1)],
            types: vec![],
        })
    );
}

#[test]
fn shift_lines_adds_the_offset_to_every_line() {
    let exports = ExtractedExports {
        functions: vec![function("a", "a()", 1), function("b", "b()", 5)],
        types: vec![ExtractedType { name: "T".to_string(), line: 2 }],
    };
    let shifted = shift_lines(&exports, 3).expect("lines fit");
    assert_eq!(
        shifted.functions,
        vec![function("a", "a()", 4), function("b", "b()", 8)]
    );
    assert_eq!(shifted.types, vec![ExtractedType { name: "T".to_string(), line: 5 }]);
    assert_eq!(shift_lines(&exports, usize::MAX - 4), None);
    assert!(shift_lines(&exports, usize::MAX - 5).is_some());
}

#[test]
fn sort_functions_keeps_the_order_of_equal_keys() {
    let sorted = sort_functions(vec![
        function("f", "f(b)", 2),
        function("g", "g()", 1),
        function("f", "f(a)", 2),
        function("e", "e()", 2),
        function("ff", "ff()", 2),
    ]);
    assert_eq!(
        sorted,
        vec![
            function("g", "g()", 1),
            function("e", "e()", 2),
            function("f", "f(b)", 2),
            function("f", "f(a)", 2),
            function("ff", "ff()", 2),
        ]
    );
}
