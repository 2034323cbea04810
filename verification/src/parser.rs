use crate::order::{
    key_before, lemma_sorted, lemma_sorted_map, lemma_sorted_order_independent, ordered,
    record_key, sort_records, sorted, Record, SortKey,
};
use crate::provider::{
    compatible, incompatible_message, language_version, new_parser, node_has_error, parse_text,
    parsed_reading, parser_language, root_node, set_language, tsx_language, typescript_language,
};
use crate::snapshot::{snapshot, SNAPSHOT_DEPTH};
use crate::syntax::{FieldName, NodeKind, NodeView, SyntaxNode};
use crate::text::{bytes_lt, str_eq, trim, trimmed};
use crate::vue::{block_views, extract_vue_scripts, script_regions, ScriptRegion};
use crate::walker::SourceKind;
use tree_sitter::{Language, Parser};
use vstd::prelude::*;
use vstd::string::*;
use vstd::utf8::*;

verus! {

/// An exported function, or an exported constant bound to one.
#[derive(Debug, Clone, PartialEq, Eq)]
pub struct ExtractedFunction {
    pub name: String,
    pub signature: String,
    pub line: usize,
}

/// An exported interface or type alias.
#[derive(Debug, Clone, PartialEq, Eq)]
pub struct ExtractedType {
    pub name: String,
    pub line: usize,
}

/// What one source text exports, each list in the order of `(line, name)`.
#[derive(Debug, Clone, PartialEq, Eq)]
pub struct ExtractedExports {
    pub functions: Vec<ExtractedFunction>,
    pub types: Vec<ExtractedType>,
}

impl Default for ExtractedExports {
    fn default() -> (out: Self)
        ensures
            out.functions@.len() == 0,
            out.types@.len() == 0,
    {
        ExtractedExports { functions: Vec::new(), types: Vec::new() }
    }
}

/// An exported function as a mathematical value.
pub ghost struct FunctionView {
    pub name: Seq<char>,
    pub signature: Seq<char>,
    pub line: int,
}

/// An exported type as a mathematical value.
pub ghost struct TypeView {
    pub name: Seq<char>,
    pub line: int,
}

/// The exports of a text as a mathematical value.
pub ghost struct ExportsView {
    pub functions: Seq<FunctionView>,
    pub types: Seq<TypeView>,
}

impl View for ExtractedFunction {
    type V = FunctionView;

    open spec fn view(&self) -> FunctionView {
        FunctionView { name: self.name@, signature: self.signature@, line: self.line as int }
    }
}

impl View for ExtractedType {
    type V = TypeView;

    open spec fn view(&self) -> TypeView {
        TypeView { name: self.name@, line: self.line as int }
    }
}

/// The view of a function, as a function.
pub open spec fn function_view() -> spec_fn(ExtractedFunction) -> FunctionView {
    |f: ExtractedFunction| f@
}

/// The view of a type, as a function.
pub open spec fn type_view() -> spec_fn(ExtractedType) -> TypeView {
    |t: ExtractedType| t@
}

/// The views of a list of functions.
pub open spec fn function_views(s: Seq<ExtractedFunction>) -> Seq<FunctionView> {
    s.map_values(function_view())
}

/// The views of a list of types.
pub open spec fn type_views(s: Seq<ExtractedType>) -> Seq<TypeView> {
    s.map_values(type_view())
}

impl View for ExtractedExports {
    type V = ExportsView;

    open spec fn view(&self) -> ExportsView {
        ExportsView { functions: function_views(self.functions@), types: type_views(self.types@) }
    }
}

/// The key `(line, name)`, the name taken as its bytes.
pub open spec fn line_name_key(line: int, name: Seq<char>) -> SortKey {
    SortKey { major: line, text: encode_utf8(name), minor: 0 }
}

/// The key of a function: its line, then its name.
pub open spec fn function_key() -> spec_fn(FunctionView) -> SortKey {
    |f: FunctionView| line_name_key(f.line, f.name)
}

/// The key of a type: its line, then its name.
pub open spec fn type_key() -> spec_fn(TypeView) -> SortKey {
    |t: TypeView| line_name_key(t.line, t.name)
}

/// Whether `(line, name)` of the first comes before that of the second.
pub fn line_name_before(line: usize, name: &String, other_line: usize, other_name: &String) -> (r:
    bool)
    ensures
        r == key_before(line_name_key(line as int, name@), line_name_key(other_line as int, other_name@)),
{
    proof {
        crate::order::lemma_bytes_before_irreflexive(encode_utf8(name@));
    }
    line < other_line || (line == other_line && bytes_lt(
        name.as_str().as_bytes(),
        other_name.as_str().as_bytes(),
    ))
}

impl Record for ExtractedFunction {
    open spec fn key(&self) -> SortKey {
        line_name_key(self.line as int, self.name@)
    }

    fn sorts_before(&self, other: &Self) -> (r: bool) {
        line_name_before(self.line, &self.name, other.line, &other.name)
    }
}

impl Record for ExtractedType {
    open spec fn key(&self) -> SortKey {
        line_name_key(self.line as int, self.name@)
    }

    fn sorts_before(&self, other: &Self) -> (r: bool) {
        line_name_before(self.line, &self.name, other.line, &other.name)
    }
}

/// The signature made of a name, a parameter list and the text of a return
/// type, which is empty where none is declared.
pub open spec fn signature_of(name: Seq<char>, parameters: Seq<char>, return_type: Seq<char>) -> Seq<
    char,
> {
    if return_type.len() == 0 {
        name + parameters
    } else {
        name + parameters + seq![' '] + return_type
    }
}

/// The text of the parameter list of a function, `()` where it has none.
pub open spec fn parameter_list(node: NodeView, text: Seq<u8>) -> Seq<char> {
    match node.field_child(FieldName::Parameters) {
        Some(p) => p.text(text),
        None => seq!['(', ')'],
    }
}

/// The text of the parameter list of an arrow function, or of its one bare
/// parameter, in parentheses either way.
pub open spec fn arrow_parameter_list(node: NodeView, text: Seq<u8>) -> Seq<char> {
    let raw = match node.field_child(FieldName::Parameters) {
        Some(p) => p.text(text),
        None => match node.field_child(FieldName::Parameter) {
            Some(p) => p.text(text),
            None => seq!['(', ')'],
        },
    };
    if raw.len() > 0 && raw[0] == '(' {
        raw
    } else {
        seq!['('] + raw + seq![')']
    }
}

/// The trimmed text of the declared return type, empty where none is
/// declared.
pub open spec fn return_type_text(node: NodeView, text: Seq<u8>) -> Seq<char> {
    match node.field_child(FieldName::ReturnType) {
        Some(r) => trim(r.text(text)),
        None => Seq::empty(),
    }
}

/// The callable named by `name_node`, with these parameters and this return
/// type.
pub open spec fn callable_of(
    name_node: NodeView,
    parameters: Seq<char>,
    return_type: Seq<char>,
    text: Seq<u8>,
) -> FunctionView {
    FunctionView {
        name: name_node.text(text),
        signature: signature_of(name_node.text(text), parameters, return_type),
        line: name_node.row + 1,
    }
}

/// The callable that a function declaration stands for; none where the
/// declaration has no name.
pub open spec fn function_declaration_view(node: NodeView, text: Seq<u8>) -> Option<FunctionView> {
    match node.field_child(FieldName::Name) {
        Some(n) => Some(callable_of(n, parameter_list(node, text), return_type_text(node, text), text)),
        None => None,
    }
}

/// The type that an interface or a type alias stands for; none where the
/// declaration has no name.
pub open spec fn type_like_view(node: NodeView, text: Seq<u8>) -> Option<TypeView> {
    match node.field_child(FieldName::Name) {
        Some(n) => Some(TypeView { name: n.text(text), line: n.row + 1 }),
        None => None,
    }
}

/// Whether a lexical declaration starts with the word `const`.
pub open spec fn const_lexical(node: NodeView, text: Seq<u8>) -> bool {
    node.children.len() > 0 && trim(node.children[0].text(text)) == seq!['c', 'o', 'n', 's', 't']
}

/// The callable that a declarator binds: its name is an identifier and its
/// value an arrow function or a function expression.
pub open spec fn declarator_view(declarator: NodeView, text: Seq<u8>) -> Option<FunctionView> {
    match declarator.field_child(FieldName::Name) {
        Some(n) => if n.kind != NodeKind::Identifier {
            None
        } else {
            match declarator.field_child(FieldName::Value) {
                Some(v) => if v.kind == NodeKind::ArrowFunction {
                    Some(callable_of(n, arrow_parameter_list(v, text), return_type_text(v, text), text))
                } else if v.kind == NodeKind::FunctionExpression {
                    Some(callable_of(n, parameter_list(v, text), return_type_text(v, text), text))
                } else {
                    None
                },
                None => None,
            }
        },
        None => None,
    }
}

/// The callables bound by the declarators among `nodes`, in their order.
pub open spec fn const_callables(nodes: Seq<NodeView>, text: Seq<u8>) -> Seq<FunctionView>
    decreases nodes.len(),
{
    if nodes.len() == 0 {
        Seq::empty()
    } else {
        let before = const_callables(nodes.drop_last(), text);
        let d = nodes.last();
        if d.named && d.kind == NodeKind::VariableDeclarator {
            match declarator_view(d, text) {
                Some(f) => before.push(f),
                None => before,
            }
        } else {
            before
        }
    }
}

/// Whether a child of an export statement can be what the statement exports:
/// a named node that is neither a clause of names nor a namespace.
pub open spec fn can_be_exported(node: NodeView) -> bool {
    node.named && node.kind != NodeKind::ExportClause && node.kind != NodeKind::NamespaceExport
}

/// The place of the first node among `nodes` that can be what is exported.
pub open spec fn exported_index(nodes: Seq<NodeView>) -> Option<int>
    decreases nodes.len(),
{
    if nodes.len() == 0 {
        None
    } else if can_be_exported(nodes[0]) {
        Some(0)
    } else {
        match exported_index(nodes.drop_first()) {
            Some(i) => Some(i + 1),
            None => None,
        }
    }
}

/// What `exported_index` finds can be exported, and is the first such node.
pub proof fn lemma_exported_index(nodes: Seq<NodeView>)
    ensures
        match exported_index(nodes) {
            Some(i) => 0 <= i < nodes.len() && can_be_exported(nodes[i]) && forall|k: int|
                0 <= k < i ==> !can_be_exported(#[trigger] nodes[k]),
            None => forall|k: int| 0 <= k < nodes.len() ==> !can_be_exported(#[trigger] nodes[k]),
        },
    decreases nodes.len(),
{
    if nodes.len() > 0 && !can_be_exported(nodes[0]) {
        let t = nodes.drop_first();
        lemma_exported_index(t);
        match exported_index(t) {
            Some(i) => {
                assert forall|k: int| 0 <= k < i + 1 implies !can_be_exported(#[trigger] nodes[k]) by {
                    if k > 0 {
                        assert(nodes[k] == t[k - 1]);
                    }
                }
            },
            None => {
                assert forall|k: int| 0 <= k < nodes.len() implies !can_be_exported(
                    #[trigger] nodes[k],
                ) by {
                    if k > 0 {
                        assert(nodes[k] == t[k - 1]);
                    }
                }
            },
        }
    }
}

/// What an export statement exports, if it exports a declaration.
pub open spec fn exported_child(statement: NodeView) -> Option<NodeView> {
    match exported_index(statement.children) {
        Some(i) => Some(statement.children[i]),
        None => None,
    }
}

/// The callables that one export statement contributes.
pub open spec fn statement_callables(statement: NodeView, text: Seq<u8>) -> Seq<FunctionView> {
    match exported_child(statement) {
        Some(e) => if e.kind == NodeKind::FunctionDeclaration {
            match function_declaration_view(e, text) {
                Some(f) => seq![f],
                None => Seq::empty(),
            }
        } else if e.kind == NodeKind::LexicalDeclaration && const_lexical(e, text) {
            const_callables(e.children, text)
        } else {
            Seq::empty()
        },
        None => Seq::empty(),
    }
}

/// The types that one export statement contributes.
pub open spec fn statement_types(statement: NodeView, text: Seq<u8>) -> Seq<TypeView> {
    match exported_child(statement) {
        Some(e) => if e.kind == NodeKind::InterfaceDeclaration || e.kind
            == NodeKind::TypeAliasDeclaration {
            match type_like_view(e, text) {
                Some(t) => seq![t],
                None => Seq::empty(),
            }
        } else {
            Seq::empty()
        },
        None => Seq::empty(),
    }
}

/// The callables of the export statements among `nodes`, in the order of the
/// tree.
pub open spec fn tree_callables(nodes: Seq<NodeView>, text: Seq<u8>) -> Seq<FunctionView>
    decreases nodes.len(),
{
    if nodes.len() == 0 {
        Seq::empty()
    } else if nodes.last().kind == NodeKind::ExportStatement {
        tree_callables(nodes.drop_last(), text) + statement_callables(nodes.last(), text)
    } else {
        tree_callables(nodes.drop_last(), text)
    }
}

/// The types of the export statements among `nodes`, in the order of the
/// tree.
pub open spec fn tree_types(nodes: Seq<NodeView>, text: Seq<u8>) -> Seq<TypeView>
    decreases nodes.len(),
{
    if nodes.len() == 0 {
        Seq::empty()
    } else if nodes.last().kind == NodeKind::ExportStatement {
        tree_types(nodes.drop_last(), text) + statement_types(nodes.last(), text)
    } else {
        tree_types(nodes.drop_last(), text)
    }
}

/// What the tree under `root` exports: the callables and the types of its
/// top-level export statements, each list in the order of `(line, name)`.
pub open spec fn extracted(root: NodeView, text: Seq<u8>) -> ExportsView {
    ExportsView {
        functions: sorted(tree_callables(root.children, text), function_key()),
        types: sorted(tree_types(root.children, text), type_key()),
    }
}

/// The text that a node spans.
fn text_for<'a>(node: &SyntaxNode, source: &'a str) -> (out: &'a str)
    requires
        node@.span_fits(source.spec_bytes()),
    ensures
        out@ == node@.text(source.spec_bytes()),
{
    node.text_in(source)
}

fn signature_string(name: &String, parameters: &str, return_type: &str) -> (out: String)
    ensures
        out@ == signature_of(name@, parameters@, return_type@),
{
    let mut out = name.clone();
    out.append(parameters);
    if !return_type.is_empty() {
        proof {
            reveal_strlit(" ");
            assert(" "@ =~= seq![' ']);
        }
        out.append(" ");
        out.append(return_type);
    }
    out
}

fn return_type_string(node: &SyntaxNode, source: &str) -> (out: String)
    requires
        node@.fits(source.spec_bytes()),
    ensures
        out@ == return_type_text(node@, source.spec_bytes()),
{
    proof {
        node@.lemma_field_child_fits(FieldName::ReturnType, source.spec_bytes());
    }
    match node.child_by_field(FieldName::ReturnType) {
        Some(r) => trimmed(text_for(r, source)),
        None => String::new(),
    }
}

fn empty_parameter_list() -> (out: String)
    ensures
        out@ == seq!['(', ')'],
{
    proof {
        reveal_strlit("()");
        assert("()"@ =~= seq!['(', ')']);
    }
    String::from_str("()")
}

fn parameter_string(node: &SyntaxNode, source: &str) -> (out: String)
    requires
        node@.fits(source.spec_bytes()),
    ensures
        out@ == parameter_list(node@, source.spec_bytes()),
{
    proof {
        node@.lemma_field_child_fits(FieldName::Parameters, source.spec_bytes());
    }
    match node.child_by_field(FieldName::Parameters) {
        Some(p) => String::from_str(text_for(p, source)),
        None => empty_parameter_list(),
    }
}

fn arrow_parameter_string(node: &SyntaxNode, source: &str) -> (out: String)
    requires
        node@.fits(source.spec_bytes()),
    ensures
        out@ == arrow_parameter_list(node@, source.spec_bytes()),
{
    proof {
        node@.lemma_field_child_fits(FieldName::Parameters, source.spec_bytes());
        node@.lemma_field_child_fits(FieldName::Parameter, source.spec_bytes());
    }
    let raw = match node.child_by_field(FieldName::Parameters) {
        Some(p) => String::from_str(text_for(p, source)),
        None => match node.child_by_field(FieldName::Parameter) {
            Some(p) => String::from_str(text_for(p, source)),
            None => empty_parameter_list(),
        },
    };
    if !raw.as_str().is_empty() && raw.as_str().get_char(0) == '(' {
        raw
    } else {
        proof {
            reveal_strlit("(");
            reveal_strlit(")");
            assert("("@ =~= seq!['(']);
            assert(")"@ =~= seq![')']);
        }
        let mut out = String::from_str("(");
        out.append(raw.as_str());
        out.append(")");
        out
    }
}

fn line_of(name_node: &SyntaxNode) -> (line: usize)
    requires
        name_node.row < usize::MAX,
    ensures
        line == name_node.row + 1,
{
    name_node.row + 1
}

/// The callable that a constant bound to an arrow function exports.
fn build_from_arrow(name: String, name_node: &SyntaxNode, node: &SyntaxNode, source: &str) -> (out:
    ExtractedFunction)
    requires
        name@ == name_node@.text(source.spec_bytes()),
        name_node.row < usize::MAX,
        node@.fits(source.spec_bytes()),
    ensures
        out@ == callable_of(
            name_node@,
            arrow_parameter_list(node@, source.spec_bytes()),
            return_type_text(node@, source.spec_bytes()),
            source.spec_bytes(),
        ),
{
    let parameters = arrow_parameter_string(node, source);
    let return_type = return_type_string(node, source);
    let signature = signature_string(&name, parameters.as_str(), return_type.as_str());
    ExtractedFunction { name, signature, line: line_of(name_node) }
}

/// The callable that a constant bound to a function expression exports.
fn build_from_function_expr(
    name: String,
    name_node: &SyntaxNode,
    node: &SyntaxNode,
    source: &str,
) -> (out: ExtractedFunction)
    requires
        name@ == name_node@.text(source.spec_bytes()),
        name_node.row < usize::MAX,
        node@.fits(source.spec_bytes()),
    ensures
        out@ == callable_of(
            name_node@,
            parameter_list(node@, source.spec_bytes()),
            return_type_text(node@, source.spec_bytes()),
            source.spec_bytes(),
        ),
{
    let parameters = parameter_string(node, source);
    let return_type = return_type_string(node, source);
    let signature = signature_string(&name, parameters.as_str(), return_type.as_str());
    ExtractedFunction { name, signature, line: line_of(name_node) }
}

/// The callable that an exported function declaration stands for.
fn function_declaration_export(node: &SyntaxNode, source: &str) -> (out: Option<
    ExtractedFunction,
>)
    requires
        node@.fits(source.spec_bytes()),
    ensures
        match out {
            Some(f) => function_declaration_view(node@, source.spec_bytes()) == Some(f@),
            None => function_declaration_view(node@, source.spec_bytes()) is None,
        },
{
    proof {
        node@.lemma_field_child_fits(FieldName::Name, source.spec_bytes());
    }
    match node.child_by_field(FieldName::Name) {
        Some(name_node) => {
            let name = String::from_str(text_for(name_node, source));
            Some(build_from_function_expr(name, name_node, node, source))
        },
        None => None,
    }
}

/// The type that an exported interface or type alias stands for.
fn type_like_export(node: &SyntaxNode, source: &str) -> (out: Option<ExtractedType>)
    requires
        node@.fits(source.spec_bytes()),
    ensures
        match out {
            Some(t) => type_like_view(node@, source.spec_bytes()) == Some(t@),
            None => type_like_view(node@, source.spec_bytes()) is None,
        },
{
    proof {
        node@.lemma_field_child_fits(FieldName::Name, source.spec_bytes());
    }
    match node.child_by_field(FieldName::Name) {
        Some(name_node) => Some(
            ExtractedType {
                name: String::from_str(text_for(name_node, source)),
                line: line_of(name_node),
            },
        ),
        None => None,
    }
}

/// Whether a lexical declaration starts with the word `const`.
fn is_const_lexical(node: &SyntaxNode, source: &str) -> (r: bool)
    requires
        node@.fits(source.spec_bytes()),
    ensures
        r == const_lexical(node@, source.spec_bytes()),
{
    proof {
        node.lemma_view_children();
    }
    if node.children.len() == 0 {
        return false;
    }
    let first = &node.children[0];
    proof {
        node.lemma_view_children();
    }
    assert(first@ == node@.children[0]);
    assert(first@.fits(source.spec_bytes()));
    let word = trimmed(text_for(first, source));
    proof {
        reveal_strlit("const");
        assert("const"@ =~= seq!['c', 'o', 'n', 's', 't']);
    }
    str_eq(word.as_str(), "const")
}

fn declarator_export(declarator: &SyntaxNode, source: &str) -> (out: Option<ExtractedFunction>)
    requires
        declarator@.fits(source.spec_bytes()),
    ensures
        match out {
            Some(f) => declarator_view(declarator@, source.spec_bytes()) == Some(f@),
            None => declarator_view(declarator@, source.spec_bytes()) is None,
        },
{
    proof {
        declarator@.lemma_field_child_fits(FieldName::Name, source.spec_bytes());
        declarator@.lemma_field_child_fits(FieldName::Value, source.spec_bytes());
    }
    let name_node = match declarator.child_by_field(FieldName::Name) {
        Some(n) => n,
        None => {
            return None;
        },
    };
    if name_node.kind != NodeKind::Identifier {
        return None;
    }
    let value_node = match declarator.child_by_field(FieldName::Value) {
        Some(v) => v,
        None => {
            return None;
        },
    };
    let name = String::from_str(text_for(name_node, source));
    match value_node.kind {
        NodeKind::ArrowFunction => Some(build_from_arrow(name, name_node, value_node, source)),
        NodeKind::FunctionExpression => Some(
            build_from_function_expr(name, name_node, value_node, source),
        ),
        _ => None,
    }
}

/// The callables that an exported `const` declaration binds.
fn const_callable_exports(node: &SyntaxNode, source: &str) -> (out: Vec<ExtractedFunction>)
    requires
        node@.fits(source.spec_bytes()),
    ensures
        function_views(out@) == const_callables(node@.children, source.spec_bytes()),
{
    let mut out: Vec<ExtractedFunction> = Vec::new();
    let mut i: usize = 0;
    assert(function_views(out@) =~= Seq::empty());
    assert(node@.children.subrange(0, 0) =~= Seq::empty());
    while i < node.children.len()
        invariant
            i <= node.children.len(),
            node@.fits(source.spec_bytes()),
            function_views(out@) == const_callables(
                node@.children.subrange(0, i as int),
                source.spec_bytes(),
            ),
        decreases node.children.len() - i,
    {
        let declarator = &node.children[i];
        proof {
            node.lemma_view_children();
        }
        assert(declarator@ == node@.children[i as int]);
        assert(declarator@.fits(source.spec_bytes()));
        assert(node@.children.subrange(0, i + 1).drop_last() =~= node@.children.subrange(
            0,
            i as int,
        ));
        if declarator.named && declarator.kind == NodeKind::VariableDeclarator {
            match declarator_export(declarator, source) {
                Some(f) => {
                    let ghost before = out@;
                    out.push(f);
                    assert(function_views(out@) =~= function_views(before).push(f@));
                },
                None => {},
            }
        }
        i = i + 1;
    }
    proof {
        node.lemma_view_children();
    }
    assert(node@.children.subrange(0, node@.children.len() as int) =~= node@.children);
    out
}

/// What an export statement exports: its first named child that is neither
/// a clause of names nor a namespace.
fn first_named_child(node: &SyntaxNode) -> (out: Option<&SyntaxNode>)
    ensures
        match out {
            Some(c) => exported_child(node@) == Some(c@),
            None => exported_child(node@) is None,
        },
{
    let mut i: usize = 0;
    while i < node.children.len()
        invariant
            i <= node.children.len(),
            forall|k: int| 0 <= k < i ==> !can_be_exported(#[trigger] node@.children[k]),
        decreases node.children.len() - i,
    {
        let c = &node.children[i];
        proof {
            node.lemma_view_children();
        }
        if c.named && c.kind != NodeKind::ExportClause && c.kind != NodeKind::NamespaceExport {
            proof {
                lemma_exported_index(node@.children);
                assert(can_be_exported(node@.children[i as int]));
                let found = exported_index(node@.children);
                if found is Some {
                    assert(can_be_exported(node@.children[found->0]));
                    assert(found->0 == i);
                }
            }
            return Some(c);
        }
        i = i + 1;
    }
    proof {
        node.lemma_view_children();
        lemma_exported_index(node@.children);
    }
    None
}

/// Puts functions in the order of `(line, name)`.
pub fn sort_functions(v: Vec<ExtractedFunction>) -> (out: Vec<ExtractedFunction>)
    ensures
        function_views(out@) == sorted(function_views(v@), function_key()),
        ordered(function_views(out@), function_key()),
{
    proof {
        lemma_sorted_map(v@, function_view(), record_key::<ExtractedFunction>(), function_key());
        lemma_sorted(function_views(v@), function_key());
    }
    sort_records(v)
}

/// Puts types in the order of `(line, name)`.
pub fn sort_types(v: Vec<ExtractedType>) -> (out: Vec<ExtractedType>)
    ensures
        type_views(out@) == sorted(type_views(v@), type_key()),
        ordered(type_views(out@), type_key()),
{
    proof {
        lemma_sorted_map(v@, type_view(), record_key::<ExtractedType>(), type_key());
        lemma_sorted(type_views(v@), type_key());
    }
    sort_records(v)
}

/// What the tree under `root`, a tree of `source`, exports.
pub fn extract_from_tree(root: &SyntaxNode, source: &str) -> (out: ExtractedExports)
    requires
        root@.fits(source.spec_bytes()),
    ensures
        out@ == extracted(root@, source.spec_bytes()),
        ordered(out@.functions, function_key()),
        ordered(out@.types, type_key()),
{
    let ghost text = source.spec_bytes();
    let mut functions: Vec<ExtractedFunction> = Vec::new();
    let mut types: Vec<ExtractedType> = Vec::new();
    let mut i: usize = 0;
    assert(function_views(functions@) =~= Seq::empty());
    assert(type_views(types@) =~= Seq::empty());
    assert(root@.children.subrange(0, 0) =~= Seq::empty());
    while i < root.children.len()
        invariant
            i <= root.children.len(),
            text == source.spec_bytes(),
            root@.fits(text),
            function_views(functions@) == tree_callables(root@.children.subrange(0, i as int), text),
            type_views(types@) == tree_types(root@.children.subrange(0, i as int), text),
        decreases root.children.len() - i,
    {
        let child = &root.children[i];
        proof {
            root.lemma_view_children();
        }
        assert(child@ == root@.children[i as int]);
        assert(child@.fits(text));
        assert(root@.children.subrange(0, i + 1).drop_last() =~= root@.children.subrange(
            0,
            i as int,
        ));
        if child.kind == NodeKind::ExportStatement {
            let ghost functions_before = functions@;
            let ghost types_before = types@;
            proof {
                lemma_exported_index(child@.children);
            }
            match first_named_child(child) {
                Some(exported) => {
                    assert(exported@.fits(text));
                    match exported.kind {
                        NodeKind::FunctionDeclaration => {
                            match function_declaration_export(exported, source) {
                                Some(f) => {
                                    functions.push(f);
                                    assert(function_views(functions@) =~= function_views(
                                        functions_before,
                                    ) + seq![f@]);
                                },
                                None => {},
                            }
                        },
                        NodeKind::LexicalDeclaration => {
                            if is_const_lexical(exported, source) {
                                let mut found = const_callable_exports(exported, source);
                                let ghost found_before = found@;
                                functions.append(&mut found);
                                assert(function_views(functions@) =~= function_views(
                                    functions_before,
                                ) + function_views(found_before));
                            }
                        },
                        NodeKind::InterfaceDeclaration | NodeKind::TypeAliasDeclaration => {
                            match type_like_export(exported, source) {
                                Some(t) => {
                                    types.push(t);
                                    assert(type_views(types@) =~= type_views(types_before) + seq![
                                        t@,
                                    ]);
                                },
                                None => {},
                            }
                        },
                        _ => {},
                    }
                },
                None => {},
            }
            assert(function_views(functions@) =~= function_views(functions_before)
                + statement_callables(child@, text));
            assert(type_views(types@) =~= type_views(types_before) + statement_types(child@, text));
        }
        i = i + 1;
    }
    proof {
        root.lemma_view_children();
    }
    assert(root@.children.subrange(0, root@.children.len() as int) =~= root@.children);
    ExtractedExports { functions: sort_functions(functions), types: sort_types(types) }
}

/// What the provider of syntax trees made of a text.
#[derive(Debug)]
pub enum ParseOutcome {
    /// It gave no tree that can be read.
    Unreadable,
    /// Its tree holds a syntax error.
    SyntaxError,
    /// Its tree, free of syntax errors.
    Tree(SyntaxNode),
}

/// What the provider made of a text, as a mathematical value.
pub ghost enum OutcomeView {
    Unreadable,
    SyntaxError,
    Tree(NodeView),
}

impl View for ParseOutcome {
    type V = OutcomeView;

    open spec fn view(&self) -> OutcomeView {
        match self {
            ParseOutcome::Unreadable => OutcomeView::Unreadable,
            ParseOutcome::SyntaxError => OutcomeView::SyntaxError,
            ParseOutcome::Tree(root) => OutcomeView::Tree(root@),
        }
    }
}

/// The message for a text of which no tree could be had.
pub open spec fn parse_failure() -> Seq<char> {
    "failed to parse file"@
}

/// The message for a text with a syntax error.
pub open spec fn syntax_failure() -> Seq<char> {
    "syntax parse error"@
}

/// The exports, or the failure, as mathematical values.
pub open spec fn result_view(r: Result<ExtractedExports, String>) -> Result<ExportsView, Seq<char>> {
    match r {
        Ok(x) => Ok(x@),
        Err(e) => Err(e@),
    }
}

/// What a text exports, given what the provider made of it: nothing but a
/// failure where the tree holds a syntax error, where there is no tree, or
/// where the tree is not one of this text.
pub open spec fn outcome_exports(outcome: OutcomeView, text: Seq<u8>) -> Result<
    ExportsView,
    Seq<char>,
> {
    match outcome {
        OutcomeView::Unreadable => Err(parse_failure()),
        OutcomeView::SyntaxError => Err(syntax_failure()),
        OutcomeView::Tree(root) => if root.fits(text) {
            Ok(extracted(root, text))
        } else {
            Err(parse_failure())
        },
    }
}

/// What a text exports, given what the provider made of it.
pub fn exports_of_outcome(outcome: &ParseOutcome, source: &str) -> (r: Result<
    ExtractedExports,
    String,
>)
    ensures
        result_view(r) == outcome_exports(outcome@, source.spec_bytes()),
        r matches Ok(x) ==> ordered(x@.functions, function_key()) && ordered(x@.types, type_key()),
{
    match outcome {
        ParseOutcome::Unreadable => Err(String::from_str("failed to parse file")),
        ParseOutcome::SyntaxError => Err(String::from_str("syntax parse error")),
        ParseOutcome::Tree(root) => {
            if root.fits_text(source) {
                Ok(extract_from_tree(root, source))
            } else {
                Err(String::from_str("failed to parse file"))
            }
        },
    }
}

/// What a parser with the grammar `language` makes of `text`, as far as it
/// is read.
pub open spec fn provided(language: Option<Language>, text: Seq<u8>) -> OutcomeView {
    match parsed_reading(language, text) {
        None => OutcomeView::Unreadable,
        Some(reading) => {
            if reading.error {
                OutcomeView::SyntaxError
            } else if reading.complete {
                OutcomeView::Tree(reading.root)
            } else {
                OutcomeView::Unreadable
            }
        },
    }
}

/// Has the parser read the text.
fn read_tree(parser: &mut Parser, source: &str) -> (outcome: ParseOutcome)
    ensures
        outcome@ == provided(parser_language(*old(parser)), source.spec_bytes()),
        parser_language(*final(parser)) == parser_language(*old(parser)),
{
    match parse_text(parser, source) {
        None => ParseOutcome::Unreadable,
        Some(tree) => {
            let root = root_node(&tree);
            if node_has_error(&root) {
                ParseOutcome::SyntaxError
            } else {
                match snapshot(&root, None, SNAPSHOT_DEPTH) {
                    Some(t) => ParseOutcome::Tree(t),
                    None => ParseOutcome::Unreadable,
                }
            }
        },
    }
}

/// What a text exports when it is read with the grammar `language`.
pub open spec fn plain_exports(language: Option<Language>, text: Seq<u8>) -> Result<
    ExportsView,
    Seq<char>,
> {
    outcome_exports(provided(language, text), text)
}

fn parse_with(parser: &mut Parser, source: &str) -> (r: Result<ExtractedExports, String>)
    ensures
        result_view(r) == plain_exports(parser_language(*old(parser)), source.spec_bytes()),
        parser_language(*final(parser)) == parser_language(*old(parser)),
        r matches Ok(x) ==> ordered(x@.functions, function_key()) && ordered(x@.types, type_key()),
{
    let outcome = read_tree(parser, source);
    exports_of_outcome(&outcome, source)
}

/// A function with `offset` added to its line.
pub open spec fn shift_function(offset: int) -> spec_fn(FunctionView) -> FunctionView {
    |f: FunctionView| FunctionView { name: f.name, signature: f.signature, line: f.line + offset }
}

/// A type with `offset` added to its line.
pub open spec fn shift_type(offset: int) -> spec_fn(TypeView) -> TypeView {
    |t: TypeView| TypeView { name: t.name, line: t.line + offset }
}

/// The exports with `offset` added to every line.
pub open spec fn shifted(x: ExportsView, offset: int) -> ExportsView {
    ExportsView {
        functions: x.functions.map_values(shift_function(offset)),
        types: x.types.map_values(shift_type(offset)),
    }
}

/// Whether every line, with `offset` added, is a number of the machine.
pub open spec fn lines_fit(x: ExportsView, offset: int) -> bool {
    &&& forall|i: int| 0 <= i < x.functions.len() ==> (#[trigger] x.functions[i]).line + offset <= usize::MAX
    &&& forall|i: int| 0 <= i < x.types.len() ==> (#[trigger] x.types[i]).line + offset <= usize::MAX
}

fn shift_functions(functions: &Vec<ExtractedFunction>, offset: usize) -> (out: Option<
    Vec<ExtractedFunction>,
>)
    ensures
        out is Some <==> forall|i: int|
            0 <= i < functions@.len() ==> (#[trigger] function_views(functions@)[i]).line + offset
                <= usize::MAX,
        out matches Some(v) ==> function_views(v@) == function_views(functions@).map_values(
            shift_function(offset as int),
        ),
{
    let mut out: Vec<ExtractedFunction> = Vec::new();
    let mut i: usize = 0;
    while i < functions.len()
        invariant
            i <= functions.len(),
            out@.len() == i,
            forall|k: int|
                0 <= k < i ==> (#[trigger] function_views(functions@)[k]).line + offset
                    <= usize::MAX,
            forall|k: int|
                0 <= k < i ==> (#[trigger] out@[k])@ == shift_function(offset as int)(
                    functions@[k]@,
                ),
        decreases functions.len() - i,
    {
        let f = &functions[i];
        assert(function_views(functions@)[i as int] == f@);
        let line = match f.line.checked_add(offset) {
            Some(line) => line,
            None => {
                return None;
            },
        };
        out.push(ExtractedFunction { name: f.name.clone(), signature: f.signature.clone(), line });
        i = i + 1;
    }
    assert(function_views(out@) =~= function_views(functions@).map_values(
        shift_function(offset as int),
    ));
    Some(out)
}

fn shift_types(types: &Vec<ExtractedType>, offset: usize) -> (out: Option<Vec<ExtractedType>>)
    ensures
        out is Some <==> forall|i: int|
            0 <= i < types@.len() ==> (#[trigger] type_views(types@)[i]).line + offset <= usize::MAX,
        out matches Some(v) ==> type_views(v@) == type_views(types@).map_values(
            shift_type(offset as int),
        ),
{
    let mut out: Vec<ExtractedType> = Vec::new();
    let mut i: usize = 0;
    while i < types.len()
        invariant
            i <= types.len(),
            out@.len() == i,
            forall|k: int|
                0 <= k < i ==> (#[trigger] type_views(types@)[k]).line + offset <= usize::MAX,
            forall|k: int|
                0 <= k < i ==> (#[trigger] out@[k])@ == shift_type(offset as int)(types@[k]@),
        decreases types.len() - i,
    {
        let t = &types[i];
        assert(type_views(types@)[i as int] == t@);
        let line = match t.line.checked_add(offset) {
            Some(line) => line,
            None => {
                return None;
            },
        };
        out.push(ExtractedType { name: t.name.clone(), line });
        i = i + 1;
    }
    assert(type_views(out@) =~= type_views(types@).map_values(shift_type(offset as int)));
    Some(out)
}

/// The exports with `offset` added to every line; `None` where a line would
/// leave the numbers of the machine.
pub fn shift_lines(extracted: &ExtractedExports, offset: usize) -> (out: Option<ExtractedExports>)
    ensures
        out is Some <==> lines_fit(extracted@, offset as int),
        out matches Some(x) ==> x@ == shifted(extracted@, offset as int),
{
    assert(extracted@.functions == function_views(extracted.functions@));
    assert(extracted@.types == type_views(extracted.types@));
    let functions = match shift_functions(&extracted.functions, offset) {
        Some(v) => v,
        None => {
            return None;
        },
    };
    let types = match shift_types(&extracted.types, offset) {
        Some(v) => v,
        None => {
            return None;
        },
    };
    Some(ExtractedExports { functions, types })
}

/// The two lists of `a`, each followed by that of `b`.
pub open spec fn joined(a: ExportsView, b: ExportsView) -> ExportsView {
    ExportsView { functions: a.functions + b.functions, types: a.types + b.types }
}

/// Both lists in the order of `(line, name)`.
pub open spec fn in_order(x: ExportsView) -> ExportsView {
    ExportsView {
        functions: sorted(x.functions, function_key()),
        types: sorted(x.types, type_key()),
    }
}

/// The grammar for a script region of a component file.
pub open spec fn region_language(
    plain: Option<Language>,
    jsx: Option<Language>,
    kind: SourceKind,
) -> Option<Language> {
    if kind == SourceKind::Tsx {
        jsx
    } else {
        plain
    }
}

/// What one script region exports, by the lines of the whole file.
pub open spec fn region_exports(
    plain: Option<Language>,
    jsx: Option<Language>,
    region: ScriptRegion,
) -> Result<ExportsView, Seq<char>> {
    match plain_exports(region_language(plain, jsx, region.kind), region.content) {
        Ok(x) => if lines_fit(x, region.line_offset) {
            Ok(shifted(x, region.line_offset))
        } else {
            Err(parse_failure())
        },
        Err(e) => Err(e),
    }
}

/// What the regions export, one after the other, or the failure of the
/// first region that fails.
pub open spec fn regions_exports(
    plain: Option<Language>,
    jsx: Option<Language>,
    regions: Seq<ScriptRegion>,
) -> Result<ExportsView, Seq<char>>
    decreases regions.len(),
{
    if regions.len() == 0 {
        Ok(ExportsView { functions: Seq::empty(), types: Seq::empty() })
    } else {
        match regions_exports(plain, jsx, regions.drop_last()) {
            Ok(before) => match region_exports(plain, jsx, regions.last()) {
                Ok(x) => Ok(joined(before, x)),
                Err(e) => Err(e),
            },
            Err(e) => Err(e),
        }
    }
}

/// What a component file exports.
pub open spec fn vue_exports(plain: Option<Language>, jsx: Option<Language>, text: Seq<u8>) -> Result<
    ExportsView,
    Seq<char>,
> {
    match regions_exports(plain, jsx, script_regions(text, 0)) {
        Ok(x) => Ok(in_order(x)),
        Err(e) => Err(e),
    }
}

/// What a text of the given kind exports, read with these two grammars.
pub open spec fn source_exports(
    plain: Option<Language>,
    jsx: Option<Language>,
    text: Seq<u8>,
    kind: SourceKind,
) -> Result<ExportsView, Seq<char>> {
    match kind {
        SourceKind::Ts => plain_exports(plain, text),
        SourceKind::Tsx => plain_exports(jsx, text),
        SourceKind::Vue => vue_exports(plain, jsx, text),
    }
}

/// Reads source texts and tells what they export.
pub struct TsExportParser {
    ts_parser: Parser,
    tsx_parser: Parser,
}

impl TsExportParser {
    /// The grammar for plain text.
    pub closed spec fn plain_language(&self) -> Option<Language> {
        parser_language(self.ts_parser)
    }

    /// The grammar for text with JSX.
    pub closed spec fn jsx_language(&self) -> Option<Language> {
        parser_language(self.tsx_parser)
    }

    /// What a text of the given kind exports.
    pub open spec fn exports_of(&self, text: Seq<u8>, kind: SourceKind) -> Result<
        ExportsView,
        Seq<char>,
    > {
        source_exports(self.plain_language(), self.jsx_language(), text, kind)
    }

    /// A parser for each of the two grammars, or the message of the grammar
    /// that could not be set.
    pub fn new() -> (r: Result<Self, String>)
        ensures
            exists|plain: Language, jsx: Language| #[trigger] Self::made_of(r, plain, jsx),
            r matches Ok(p) ==> p.plain_language() is Some && p.jsx_language() is Some,
    {
        let plain = typescript_language();
        let jsx = tsx_language();
        let r = Self::with_languages(&plain, &jsx);
        assert(Self::made_of(r, plain, jsx));
        r
    }

    /// Whether `r` is what comes of setting up a parser for plain text with
    /// the grammar `plain` and one for text with JSX with the grammar `jsx`:
    /// the two parsers where both grammars are taken, else the message for
    /// the first grammar that is not.
    pub open spec fn made_of(r: Result<Self, String>, plain: Language, jsx: Language) -> bool {
        match r {
            Ok(p) => {
                &&& compatible(plain)
                &&& compatible(jsx)
                &&& p.plain_language() == Some(plain)
                &&& p.jsx_language() == Some(jsx)
            },
            Err(message) => if !compatible(plain) {
                message@ == incompatible_message(language_version(plain))
            } else {
                !compatible(jsx) && message@ == incompatible_message(language_version(jsx))
            },
        }
    }

    /// A parser for plain text with the grammar `plain` and one for text with
    /// JSX with the grammar `jsx`, or the message for the first grammar that
    /// is not taken.
    pub fn with_languages(plain: &Language, jsx: &Language) -> (r: Result<Self, String>)
        ensures
            Self::made_of(r, *plain, *jsx),
    {
        let mut ts_parser = new_parser();
        match set_language(&mut ts_parser, plain) {
            Ok(()) => {},
            Err(message) => {
                return Err(message);
            },
        }
        let mut tsx_parser = new_parser();
        match set_language(&mut tsx_parser, jsx) {
            Ok(()) => {},
            Err(message) => {
                return Err(message);
            },
        }
        Ok(TsExportParser { ts_parser, tsx_parser })
    }

    /// What `source`, a text of the given kind, exports.
    pub fn extract_exports_for_source(&mut self, source: &str, kind: &SourceKind) -> (r: Result<
        ExtractedExports,
        String,
    >)
        ensures
            result_view(r) == old(self).exports_of(source.spec_bytes(), *kind),
            final(self).plain_language() == old(self).plain_language(),
            final(self).jsx_language() == old(self).jsx_language(),
            r matches Ok(x) ==> ordered(x@.functions, function_key()) && ordered(
                x@.types,
                type_key(),
            ),
    {
        match kind {
            SourceKind::Ts => self.extract_exports_from_ts(source),
            SourceKind::Tsx => self.extract_exports_from_tsx(source),
            SourceKind::Vue => self.extract_exports_from_vue(source),
        }
    }

    fn extract_exports_from_ts(&mut self, source: &str) -> (r: Result<ExtractedExports, String>)
        ensures
            result_view(r) == plain_exports(old(self).plain_language(), source.spec_bytes()),
            final(self).plain_language() == old(self).plain_language(),
            final(self).jsx_language() == old(self).jsx_language(),
            r matches Ok(x) ==> ordered(x@.functions, function_key()) && ordered(
                x@.types,
                type_key(),
            ),
    {
        parse_with(&mut self.ts_parser, source)
    }

    fn extract_exports_from_tsx(&mut self, source: &str) -> (r: Result<ExtractedExports, String>)
        ensures
            result_view(r) == plain_exports(old(self).jsx_language(), source.spec_bytes()),
            final(self).plain_language() == old(self).plain_language(),
            final(self).jsx_language() == old(self).jsx_language(),
            r matches Ok(x) ==> ordered(x@.functions, function_key()) && ordered(
                x@.types,
                type_key(),
            ),
    {
        parse_with(&mut self.tsx_parser, source)
    }

    fn extract_exports_from_vue(&mut self, source: &str) -> (r: Result<ExtractedExports, String>)
        ensures
            result_view(r) == vue_exports(
                old(self).plain_language(),
                old(self).jsx_language(),
                source.spec_bytes(),
            ),
            final(self).plain_language() == old(self).plain_language(),
            final(self).jsx_language() == old(self).jsx_language(),
            r matches Ok(x) ==> ordered(x@.functions, function_key()) && ordered(
                x@.types,
                type_key(),
            ),
    {
        let ghost plain = self.plain_language();
        let ghost jsx = self.jsx_language();
        let blocks = extract_vue_scripts(source);
        let ghost regions = block_views(blocks@);
        let mut functions: Vec<ExtractedFunction> = Vec::new();
        let mut types: Vec<ExtractedType> = Vec::new();
        let mut i: usize = 0;
        assert(function_views(functions@) =~= Seq::empty());
        assert(type_views(types@) =~= Seq::empty());
        assert(regions.subrange(0, 0) =~= Seq::empty());
        while i < blocks.len()
            invariant
                i <= blocks.len(),
                regions == block_views(blocks@),
                regions == script_regions(source.spec_bytes(), 0),
                plain == old(self).plain_language(),
                jsx == old(self).jsx_language(),
                self.plain_language() == plain,
                self.jsx_language() == jsx,
                regions_exports(plain, jsx, regions.subrange(0, i as int)) == Ok::<
                    ExportsView,
                    Seq<char>,
                >(
                    ExportsView {
                        functions: function_views(functions@),
                        types: type_views(types@),
                    },
                ),
            decreases blocks.len() - i,
        {
            let block = &blocks[i];
            assert(regions[i as int] == block@);
            assert(regions.subrange(0, i + 1).drop_last() =~= regions.subrange(0, i as int));
            assert(regions.subrange(0, i + 1).last() == block@);
            let ghost prefix = regions.subrange(0, i + 1);
            let found = match block.kind {
                SourceKind::Tsx => self.extract_exports_from_tsx(block.content.as_str()),
                _ => self.extract_exports_from_ts(block.content.as_str()),
            };
            let extracted = match found {
                Ok(x) => x,
                Err(message) => {
                    proof {
                        assert(regions_exports(plain, jsx, prefix) == Err::<ExportsView, Seq<char>>(
                            message@,
                        ));
                        lemma_regions_failure(plain, jsx, regions, i + 1);
                    }
                    return Err(message);
                },
            };
            let mut moved = match shift_lines(&extracted, block.line_offset) {
                Some(x) => x,
                None => {
                    proof {
                        assert(regions_exports(plain, jsx, prefix) == Err::<ExportsView, Seq<char>>(
                            parse_failure(),
                        ));
                        lemma_regions_failure(plain, jsx, regions, i + 1);
                    }
                    return Err(String::from_str("failed to parse file"));
                },
            };
            let ghost functions_before = functions@;
            let ghost types_before = types@;
            let ghost moved_view = moved@;
            functions.append(&mut moved.functions);
            types.append(&mut moved.types);
            assert(function_views(functions@) =~= function_views(functions_before)
                + moved_view.functions);
            assert(type_views(types@) =~= type_views(types_before) + moved_view.types);
            i = i + 1;
        }
        assert(regions.subrange(0, regions.len() as int) =~= regions);
        Ok(ExtractedExports { functions: sort_functions(functions), types: sort_types(types) })
    }
}

/// Where the first regions fail, all of them fail in the same way.
pub proof fn lemma_regions_failure(
    plain: Option<Language>,
    jsx: Option<Language>,
    regions: Seq<ScriptRegion>,
    upto: int,
)
    requires
        0 <= upto <= regions.len(),
        regions_exports(plain, jsx, regions.subrange(0, upto)) is Err,
    ensures
        regions_exports(plain, jsx, regions) == regions_exports(plain, jsx, regions.subrange(0, upto)),
    decreases regions.len() - upto,
{
    if upto == regions.len() {
        assert(regions.subrange(0, upto) =~= regions);
    } else {
        assert(regions.subrange(0, upto + 1).drop_last() =~= regions.subrange(0, upto));
        lemma_regions_failure(plain, jsx, regions, upto + 1);
    }
}

/// The order of the exported functions does not depend on the order in
/// which the declarations stand in the text: the same functions, found in
/// another order, come out in the same order, that of `(line, name)`. This
/// holds where no two different functions share line and name.
pub proof fn lemma_function_order_independent(found: Seq<FunctionView>, other: Seq<FunctionView>)
    requires
        found.to_multiset() == other.to_multiset(),
        forall|i: int, j: int|
            0 <= i < found.len() && 0 <= j < found.len() && function_key()(found[i])
                == function_key()(found[j]) ==> found[i] == found[j],
    ensures
        sorted(found, function_key()) == sorted(other, function_key()),
        ordered(sorted(found, function_key()), function_key()),
{
    lemma_sorted_order_independent(found, other, function_key());
}

/// The order of the exported types does not depend on the order in which the
/// declarations stand in the text. This holds where no two different types
/// share line and name.
pub proof fn lemma_type_order_independent(found: Seq<TypeView>, other: Seq<TypeView>)
    requires
        found.to_multiset() == other.to_multiset(),
        forall|i: int, j: int|
            0 <= i < found.len() && 0 <= j < found.len() && type_key()(found[i]) == type_key()(
                found[j],
            ) ==> found[i] == found[j],
    ensures
        sorted(found, type_key()) == sorted(other, type_key()),
        ordered(sorted(found, type_key()), type_key()),
{
    lemma_sorted_order_independent(found, other, type_key());
}

/// The callables of two lists of statements, one behind the other, are
/// those of the first followed by those of the second.
pub proof fn lemma_tree_callables_joined(a: Seq<NodeView>, b: Seq<NodeView>, text: Seq<u8>)
    ensures
        tree_callables(a + b, text) == tree_callables(a, text) + tree_callables(b, text),
    decreases b.len(),
{
    if b.len() == 0 {
        assert(a + b =~= a);
        assert(tree_callables(a, text) + tree_callables(b, text) =~= tree_callables(a, text));
    } else {
        assert((a + b).drop_last() =~= a + b.drop_last());
        assert((a + b).last() == b.last());
        lemma_tree_callables_joined(a, b.drop_last(), text);
        if b.last().kind == NodeKind::ExportStatement {
            assert(tree_callables(a, text) + (tree_callables(b.drop_last(), text)
                + statement_callables(b.last(), text)) =~= tree_callables(a, text)
                + tree_callables(b.drop_last(), text) + statement_callables(b.last(), text));
        }
    }
}

/// The types of two lists of statements, one behind the other, are those of
/// the first followed by those of the second.
pub proof fn lemma_tree_types_joined(a: Seq<NodeView>, b: Seq<NodeView>, text: Seq<u8>)
    ensures
        tree_types(a + b, text) == tree_types(a, text) + tree_types(b, text),
    decreases b.len(),
{
    if b.len() == 0 {
        assert(a + b =~= a);
        assert(tree_types(a, text) + tree_types(b, text) =~= tree_types(a, text));
    } else {
        assert((a + b).drop_last() =~= a + b.drop_last());
        assert((a + b).last() == b.last());
        lemma_tree_types_joined(a, b.drop_last(), text);
        if b.last().kind == NodeKind::ExportStatement {
            assert(tree_types(a, text) + (tree_types(b.drop_last(), text) + statement_types(
                b.last(),
                text,
            )) =~= tree_types(a, text) + tree_types(b.drop_last(), text) + statement_types(
                b.last(),
                text,
            ));
        }
    }
}

/// The statements `here`, with `first` and `second` in each other's place.
pub open spec fn places_changed(
    before: Seq<NodeView>,
    first: NodeView,
    between: Seq<NodeView>,
    second: NodeView,
    after: Seq<NodeView>,
) -> Seq<NodeView> {
    before + seq![second] + between + seq![first] + after
}

/// Whether no two different records among the exports of these statements
/// share line and name.
pub open spec fn keys_tell_apart(statements: Seq<NodeView>, text: Seq<u8>) -> bool {
    let functions = tree_callables(statements, text);
    let types = tree_types(statements, text);
    &&& forall|i: int, j: int|
        0 <= i < functions.len() && 0 <= j < functions.len() && function_key()(functions[i])
            == function_key()(functions[j]) ==> functions[i] == functions[j]
    &&& forall|i: int, j: int|
        0 <= i < types.len() && 0 <= j < types.len() && type_key()(types[i]) == type_key()(
            types[j],
        ) ==> types[i] == types[j]
}

/// Two top-level statements may change places in the tree: what the tree
/// exports stays as it is, in the order of `(line, name)`. This holds where
/// no two different exports share line and name.
pub proof fn lemma_statements_may_change_places(
    root: NodeView,
    other: NodeView,
    before: Seq<NodeView>,
    first: NodeView,
    between: Seq<NodeView>,
    second: NodeView,
    after: Seq<NodeView>,
    text: Seq<u8>,
)
    requires
        root.children == before + seq![first] + between + seq![second] + after,
        other.children == places_changed(before, first, between, second, after),
        keys_tell_apart(root.children, text),
    ensures
        extracted(other, text) == extracted(root, text),
{
    broadcast use vstd::multiset::group_multiset_axioms;

    let here = root.children;
    let there = other.children;
    lemma_tree_callables_joined(before + seq![first] + between + seq![second], after, text);
    lemma_tree_callables_joined(before + seq![first] + between, seq![second], text);
    lemma_tree_callables_joined(before + seq![first], between, text);
    lemma_tree_callables_joined(before, seq![first], text);
    lemma_tree_callables_joined(before + seq![second] + between + seq![first], after, text);
    lemma_tree_callables_joined(before + seq![second] + between, seq![first], text);
    lemma_tree_callables_joined(before + seq![second], between, text);
    lemma_tree_callables_joined(before, seq![second], text);
    lemma_tree_types_joined(before + seq![first] + between + seq![second], after, text);
    lemma_tree_types_joined(before + seq![first] + between, seq![second], text);
    lemma_tree_types_joined(before + seq![first], between, text);
    lemma_tree_types_joined(before, seq![first], text);
    lemma_tree_types_joined(before + seq![second] + between + seq![first], after, text);
    lemma_tree_types_joined(before + seq![second] + between, seq![first], text);
    lemma_tree_types_joined(before + seq![second], between, text);
    lemma_tree_types_joined(before, seq![second], text);
    lemma_changed_places_same_records(
        tree_callables(before, text),
        tree_callables(seq![first], text),
        tree_callables(between, text),
        tree_callables(seq![second], text),
        tree_callables(after, text),
    );
    lemma_changed_places_same_records(
        tree_types(before, text),
        tree_types(seq![first], text),
        tree_types(between, text),
        tree_types(seq![second], text),
        tree_types(after, text),
    );
    lemma_function_order_independent(tree_callables(here, text), tree_callables(there, text));
    lemma_type_order_independent(tree_types(here, text), tree_types(there, text));
}

proof fn lemma_changed_places_same_records<A>(b: Seq<A>, x: Seq<A>, m: Seq<A>, y: Seq<A>, a: Seq<A>)
    ensures
        (b + x + m + y + a).to_multiset() == (b + y + m + x + a).to_multiset(),
{
    broadcast use vstd::multiset::group_multiset_axioms;

    vstd::seq_lib::lemma_multiset_commutative(b + x + m + y, a);
    vstd::seq_lib::lemma_multiset_commutative(b + x + m, y);
    vstd::seq_lib::lemma_multiset_commutative(b + x, m);
    vstd::seq_lib::lemma_multiset_commutative(b, x);
    vstd::seq_lib::lemma_multiset_commutative(b + y + m + x, a);
    vstd::seq_lib::lemma_multiset_commutative(b + y + m, x);
    vstd::seq_lib::lemma_multiset_commutative(b + y, m);
    vstd::seq_lib::lemma_multiset_commutative(b, y);
    assert((b + x + m + y + a).to_multiset() =~= (b + y + m + x + a).to_multiset());
}

/// Whatever a tree exports is in the order of `(line, name)`.
pub proof fn lemma_extracted_is_ordered(root: NodeView, text: Seq<u8>)
    ensures
        ordered(extracted(root, text).functions, function_key()),
        ordered(extracted(root, text).types, type_key()),
{
    lemma_sorted(tree_callables(root.children, text), function_key());
    lemma_sorted(tree_types(root.children, text), type_key());
}

/// Reading the same text again gives the same result: what is extracted
/// depends on the text, its kind and the two grammars alone, and a parser
/// keeps its grammars.
pub proof fn lemma_extraction_repeats(
    first: TsExportParser,
    second: TsExportParser,
    text: Seq<u8>,
    kind: SourceKind,
)
    requires
        first.plain_language() == second.plain_language(),
        first.jsx_language() == second.jsx_language(),
    ensures
        first.exports_of(text, kind) == second.exports_of(text, kind),
{
}

} // verus!
