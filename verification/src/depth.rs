use crate::parser::{
    arrow_parameter_list, const_callables, const_lexical, declarator_view, exported_child,
    exported_index, extracted, function_declaration_view, parameter_list, return_type_text,
    statement_callables, statement_types, tree_callables, tree_types, type_like_view,
};
use crate::provider::{node_child_at, node_child_total};
use crate::snapshot::{field_tag, node_complete, node_model, SNAPSHOT_DEPTH};
use crate::syntax::{field_index, FieldName, NodeView};
use tree_sitter::Node;
use vstd::prelude::*;

verus! {

/// The tree under `node` without what lies more than `depth` levels below
/// it.
pub open spec fn cut(node: NodeView, depth: nat) -> NodeView
    decreases depth,
{
    NodeView {
        kind: node.kind,
        field: node.field,
        named: node.named,
        start_byte: node.start_byte,
        end_byte: node.end_byte,
        row: node.row,
        children: if depth == 0 {
            Seq::empty()
        } else {
            Seq::new(node.children.len(), |i: int| cut(node.children[i], (depth - 1) as nat))
        },
    }
}

/// The nodes, each cut at `depth` levels.
pub open spec fn cut_all(nodes: Seq<NodeView>, depth: nat) -> Seq<NodeView> {
    Seq::new(nodes.len(), |i: int| cut(nodes[i], depth))
}

proof fn lemma_cut_children(node: NodeView, depth: nat)
    requires
        depth > 0,
    ensures
        cut(node, depth).children == cut_all(node.children, (depth - 1) as nat),
{
    assert(cut(node, depth).children =~= cut_all(node.children, (depth - 1) as nat));
}

proof fn lemma_cut_field_index(nodes: Seq<NodeView>, depth: nat, field: FieldName)
    ensures
        field_index(cut_all(nodes, depth), field) == field_index(nodes, field),
    decreases nodes.len(),
{
    if nodes.len() > 0 {
        assert(cut_all(nodes, depth).drop_first() =~= cut_all(nodes.drop_first(), depth));
        lemma_cut_field_index(nodes.drop_first(), depth, field);
    }
}

proof fn lemma_cut_field_child(node: NodeView, depth: nat, field: FieldName)
    requires
        depth > 0,
    ensures
        cut(node, depth).field_child(field) == match node.field_child(field) {
            Some(c) => Some(cut(c, (depth - 1) as nat)),
            None => None,
        },
{
    lemma_cut_children(node, depth);
    lemma_cut_field_index(node.children, (depth - 1) as nat, field);
    crate::syntax::lemma_field_index(node.children, field);
}

proof fn lemma_cut_texts(node: NodeView, depth: nat, text: Seq<u8>)
    requires
        depth > 0,
    ensures
        parameter_list(cut(node, depth), text) == parameter_list(node, text),
        arrow_parameter_list(cut(node, depth), text) == arrow_parameter_list(node, text),
        return_type_text(cut(node, depth), text) == return_type_text(node, text),
        function_declaration_view(cut(node, depth), text) == function_declaration_view(node, text),
        type_like_view(cut(node, depth), text) == type_like_view(node, text),
{
    lemma_cut_field_child(node, depth, FieldName::Name);
    lemma_cut_field_child(node, depth, FieldName::Parameters);
    lemma_cut_field_child(node, depth, FieldName::Parameter);
    lemma_cut_field_child(node, depth, FieldName::ReturnType);
}

proof fn lemma_cut_declarator(declarator: NodeView, depth: nat, text: Seq<u8>)
    requires
        depth >= 2,
    ensures
        declarator_view(cut(declarator, depth), text) == declarator_view(declarator, text),
{
    lemma_cut_field_child(declarator, depth, FieldName::Name);
    lemma_cut_field_child(declarator, depth, FieldName::Value);
    match declarator.field_child(FieldName::Value) {
        Some(v) => {
            lemma_cut_texts(v, (depth - 1) as nat, text);
        },
        None => {},
    }
}

proof fn lemma_cut_const_callables(nodes: Seq<NodeView>, depth: nat, text: Seq<u8>)
    requires
        depth >= 2,
    ensures
        const_callables(cut_all(nodes, depth), text) == const_callables(nodes, text),
    decreases nodes.len(),
{
    if nodes.len() > 0 {
        assert(cut_all(nodes, depth).drop_last() =~= cut_all(nodes.drop_last(), depth));
        lemma_cut_const_callables(nodes.drop_last(), depth, text);
        lemma_cut_declarator(nodes.last(), depth, text);
    }
}

proof fn lemma_cut_exported_index(nodes: Seq<NodeView>, depth: nat)
    ensures
        exported_index(cut_all(nodes, depth)) == exported_index(nodes),
    decreases nodes.len(),
{
    if nodes.len() > 0 {
        assert(cut_all(nodes, depth).drop_first() =~= cut_all(nodes.drop_first(), depth));
        lemma_cut_exported_index(nodes.drop_first(), depth);
    }
}

proof fn lemma_cut_statement(statement: NodeView, depth: nat, text: Seq<u8>)
    requires
        depth >= 4,
    ensures
        statement_callables(cut(statement, depth), text) == statement_callables(statement, text),
        statement_types(cut(statement, depth), text) == statement_types(statement, text),
{
    lemma_cut_children(statement, depth);
    lemma_cut_exported_index(statement.children, (depth - 1) as nat);
    crate::parser::lemma_exported_index(statement.children);
    match exported_child(statement) {
        Some(e) => {
            let below = (depth - 1) as nat;
            assert(exported_child(cut(statement, depth)) == Some(cut(e, below)));
            lemma_cut_texts(e, below, text);
            lemma_cut_children(e, below);
            lemma_cut_const_callables(e.children, (below - 1) as nat, text);
            assert(const_lexical(cut(e, below), text) == const_lexical(e, text));
        },
        None => {},
    }
}

proof fn lemma_cut_tree(nodes: Seq<NodeView>, depth: nat, text: Seq<u8>)
    requires
        depth >= 4,
    ensures
        tree_callables(cut_all(nodes, depth), text) == tree_callables(nodes, text),
        tree_types(cut_all(nodes, depth), text) == tree_types(nodes, text),
    decreases nodes.len(),
{
    if nodes.len() > 0 {
        assert(cut_all(nodes, depth).drop_last() =~= cut_all(nodes.drop_last(), depth));
        lemma_cut_tree(nodes.drop_last(), depth, text);
        lemma_cut_statement(nodes.last(), depth, text);
    }
}

/// No export is told by a node more than five levels below the root: a tree
/// cut at that depth, or further down, exports what the whole tree exports.
pub proof fn lemma_five_levels_suffice(root: NodeView, depth: nat, text: Seq<u8>)
    requires
        depth >= 5,
    ensures
        extracted(cut(root, depth), text) == extracted(root, text),
{
    lemma_cut_children(root, depth);
    lemma_cut_tree(root.children, (depth - 1) as nat, text);
}

/// A tree that fits a text still fits it when it is cut.
pub proof fn lemma_cut_fits(node: NodeView, depth: nat, text: Seq<u8>)
    requires
        node.fits(text),
    ensures
        cut(node, depth).fits(text),
    decreases depth,
{
    if depth > 0 {
        lemma_cut_children(node, depth);
        assert forall|i: int| 0 <= i < cut(node, depth).children.len() implies (
        #[trigger] cut(node, depth).children[i]).fits(text) by {
            assert(node.children[i].fits(text));
            lemma_cut_fits(node.children[i], (depth - 1) as nat, text);
        }
    }
}

/// What is read of a tree down to some depth, cut further up, is what is
/// read down to there.
pub proof fn lemma_model_cut(node: Node<'_>, field: Option<FieldName>, depth: nat, upto: nat)
    requires
        upto <= depth,
        node_complete(node, depth),
    ensures
        cut(node_model(node, field, depth), upto) == node_model(node, field, upto),
    decreases upto,
{
    if upto > 0 {
        let deep = node_model(node, field, depth);
        lemma_cut_children(deep, upto);
        assert forall|i: int| 0 <= i < node_child_total(node) implies cut(deep, upto).children[i]
            == node_model(node, field, upto).children[i] by {
            match node_child_at(node, i as usize) {
                Some(c) => {
                    lemma_model_cut(c, field_tag(node, c), (depth - 1) as nat, (upto - 1) as nat);
                },
                None => {
                    assert(false);
                },
            }
        }
        assert(cut(deep, upto).children =~= node_model(node, field, upto).children);
    } else {
        assert(cut(node_model(node, field, depth), upto).children =~= node_model(
            node,
            field,
            upto,
        ).children);
    }
}

/// Reading a tree further down than it is read changes nothing of what it
/// exports.
pub proof fn lemma_reading_deeper_changes_nothing(node: Node<'_>, depth: nat, text: Seq<u8>)
    requires
        depth >= SNAPSHOT_DEPTH,
        node_complete(node, depth),
    ensures
        extracted(node_model(node, None, depth), text) == extracted(
            node_model(node, None, SNAPSHOT_DEPTH as nat),
            text,
        ),
{
    lemma_model_cut(node, None, depth, SNAPSHOT_DEPTH as nat);
    lemma_five_levels_suffice(node_model(node, None, depth), SNAPSHOT_DEPTH as nat, text);
}

} // verus!
