use crate::provider::{
    node_child, node_child_at, node_child_count, node_child_total, node_end, node_end_byte,
    node_field, node_field_child, node_is_named, node_kind, node_kind_name, node_named, node_row,
    node_same, node_start, node_start_byte, node_start_row, same_node,
};
use crate::syntax::{FieldName, NodeKind, NodeView, SyntaxNode};
use crate::text::str_eq;
use tree_sitter::Node;
use vstd::prelude::*;
use vstd::string::*;

verus! {

/// How far below the root the tree is read: no export is told by a node
/// further down.
pub const SNAPSHOT_DEPTH: usize = 5;

/// The kind that the grammar calls by this name. A function expression goes
/// by two names, an earlier and a later one.
pub open spec fn kind_named(name: Seq<char>) -> NodeKind {
    if name == "export_statement"@ {
        NodeKind::ExportStatement
    } else if name == "export_clause"@ {
        NodeKind::ExportClause
    } else if name == "namespace_export"@ {
        NodeKind::NamespaceExport
    } else if name == "function_declaration"@ {
        NodeKind::FunctionDeclaration
    } else if name == "lexical_declaration"@ {
        NodeKind::LexicalDeclaration
    } else if name == "interface_declaration"@ {
        NodeKind::InterfaceDeclaration
    } else if name == "type_alias_declaration"@ {
        NodeKind::TypeAliasDeclaration
    } else if name == "variable_declarator"@ {
        NodeKind::VariableDeclarator
    } else if name == "identifier"@ {
        NodeKind::Identifier
    } else if name == "arrow_function"@ {
        NodeKind::ArrowFunction
    } else if name == "function_expression"@ || name == "function"@ {
        NodeKind::FunctionExpression
    } else {
        NodeKind::Other
    }
}

/// The kind that the grammar calls by this name.
pub fn kind_of_name(name: &str) -> (kind: NodeKind)
    ensures
        kind == kind_named(name@),
{
    if str_eq(name, "export_statement") {
        NodeKind::ExportStatement
    } else if str_eq(name, "export_clause") {
        NodeKind::ExportClause
    } else if str_eq(name, "namespace_export") {
        NodeKind::NamespaceExport
    } else if str_eq(name, "function_declaration") {
        NodeKind::FunctionDeclaration
    } else if str_eq(name, "lexical_declaration") {
        NodeKind::LexicalDeclaration
    } else if str_eq(name, "interface_declaration") {
        NodeKind::InterfaceDeclaration
    } else if str_eq(name, "type_alias_declaration") {
        NodeKind::TypeAliasDeclaration
    } else if str_eq(name, "variable_declarator") {
        NodeKind::VariableDeclarator
    } else if str_eq(name, "identifier") {
        NodeKind::Identifier
    } else if str_eq(name, "arrow_function") {
        NodeKind::ArrowFunction
    } else if str_eq(name, "function_expression") || str_eq(name, "function") {
        NodeKind::FunctionExpression
    } else {
        NodeKind::Other
    }
}

/// Whether `child` is the node that `parent` holds under `field`.
pub open spec fn names_child(parent: Node<'_>, field: Seq<char>, child: Node<'_>) -> bool {
    match node_field(parent, field) {
        Some(c) => node_same(c, child),
        None => false,
    }
}

/// The field under which `parent` names `child`, if it does.
pub open spec fn field_tag(parent: Node<'_>, child: Node<'_>) -> Option<FieldName> {
    if names_child(parent, "name"@, child) {
        Some(FieldName::Name)
    } else if names_child(parent, "parameters"@, child) {
        Some(FieldName::Parameters)
    } else if names_child(parent, "parameter"@, child) {
        Some(FieldName::Parameter)
    } else if names_child(parent, "return_type"@, child) {
        Some(FieldName::ReturnType)
    } else if names_child(parent, "value"@, child) {
        Some(FieldName::Value)
    } else {
        None
    }
}

/// The tree under `node`, `depth` levels of it.
pub open spec fn node_model(node: Node<'_>, field: Option<FieldName>, depth: nat) -> NodeView
    decreases depth,
{
    NodeView {
        kind: kind_named(node_kind_name(node)),
        field,
        named: node_named(node),
        start_byte: node_start(node) as int,
        end_byte: node_end(node) as int,
        row: node_row(node) as int,
        children: if depth == 0 {
            Seq::empty()
        } else {
            Seq::new(
                node_child_total(node) as nat,
                |i: int|
                    match node_child_at(node, i as usize) {
                        Some(c) => node_model(c, field_tag(node, c), (depth - 1) as nat),
                        None => arbitrary(),
                    },
            )
        },
    }
}

/// Whether every node within `depth` levels has all the children that it
/// counts.
pub open spec fn node_complete(node: Node<'_>, depth: nat) -> bool
    decreases depth,
{
    depth == 0 || forall|i: int|
        0 <= i < node_child_total(node) ==> match #[trigger] node_child_at(node, i as usize) {
            Some(c) => node_complete(c, (depth - 1) as nat),
            None => false,
        }
}

/// The children that a node holds under the five field names.
struct FieldChildren<'t> {
    name: Option<Node<'t>>,
    parameters: Option<Node<'t>>,
    parameter: Option<Node<'t>>,
    return_type: Option<Node<'t>>,
    value: Option<Node<'t>>,
}

impl<'t> FieldChildren<'t> {
    spec fn of(&self, node: Node<'_>) -> bool {
        &&& self.name == node_field(node, "name"@)
        &&& self.parameters == node_field(node, "parameters"@)
        &&& self.parameter == node_field(node, "parameter"@)
        &&& self.return_type == node_field(node, "return_type"@)
        &&& self.value == node_field(node, "value"@)
    }
}

fn field_children<'t>(node: &Node<'t>) -> (found: FieldChildren<'t>)
    ensures
        found.of(*node),
{
    FieldChildren {
        name: node_field_child(node, "name"),
        parameters: node_field_child(node, "parameters"),
        parameter: node_field_child(node, "parameter"),
        return_type: node_field_child(node, "return_type"),
        value: node_field_child(node, "value"),
    }
}

fn is_node(found: &Option<Node<'_>>, child: &Node<'_>) -> (r: bool)
    ensures
        r == match *found {
            Some(c) => node_same(c, *child),
            None => false,
        },
{
    match found {
        Some(c) => same_node(c, child),
        None => false,
    }
}

fn tag_of(found: &FieldChildren<'_>, parent: &Node<'_>, child: &Node<'_>) -> (tag: Option<FieldName>)
    requires
        found.of(*parent),
    ensures
        tag == field_tag(*parent, *child),
{
    if is_node(&found.name, child) {
        Some(FieldName::Name)
    } else if is_node(&found.parameters, child) {
        Some(FieldName::Parameters)
    } else if is_node(&found.parameter, child) {
        Some(FieldName::Parameter)
    } else if is_node(&found.return_type, child) {
        Some(FieldName::ReturnType)
    } else if is_node(&found.value, child) {
        Some(FieldName::Value)
    } else {
        None
    }
}

/// Reads the tree under `node`, `depth` levels of it, into a tree of the
/// library's own. `None` where a node lacks one of the children it counts.
pub(crate) fn snapshot(node: &Node<'_>, field: Option<FieldName>, depth: usize) -> (r: Option<
    SyntaxNode,
>)
    ensures
        r is Some <==> node_complete(*node, depth as nat),
        r matches Some(t) ==> t@ == node_model(*node, field, depth as nat),
    decreases depth,
{
    let mut children: Vec<SyntaxNode> = Vec::new();
    if depth > 0 {
        let found = field_children(node);
        let total = node_child_count(node);
        let mut i: usize = 0;
        while i < total
            invariant
                i <= total,
                depth > 0,
                total == node_child_total(*node),
                found.of(*node),
                children@.len() == i,
                forall|k: int|
                    0 <= k < i ==> match #[trigger] node_child_at(*node, k as usize) {
                        Some(c) => node_complete(c, (depth - 1) as nat) && children@[k]@
                            == node_model(c, field_tag(*node, c), (depth - 1) as nat),
                        None => false,
                    },
            decreases total - i,
        {
            let child = match node_child(node, i) {
                Some(c) => c,
                None => {
                    assert(node_child_at(*node, i as int as usize) is None);
                    return None;
                },
            };
            let tag = tag_of(&found, node, &child);
            match snapshot(&child, tag, depth - 1) {
                Some(t) => {
                    children.push(t);
                },
                None => {
                    assert(node_child_at(*node, i as int as usize) == Some(child));
                    return None;
                },
            }
            i = i + 1;
        }
    }
    let out = SyntaxNode {
        kind: kind_of_name(node_kind(node)),
        field,
        named: node_is_named(node),
        start_byte: node_start_byte(node),
        end_byte: node_end_byte(node),
        row: node_start_row(node),
        children,
    };
    proof {
        out.lemma_view_children();
        assert(out@.children =~= node_model(*node, field, depth as nat).children);
    }
    Some(out)
}

} // verus!
