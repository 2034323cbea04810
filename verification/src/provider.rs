use crate::markdown::decimal;
use crate::snapshot::{node_complete, node_model, SNAPSHOT_DEPTH};
use crate::syntax::NodeView;
use tree_sitter::{Language, Node, Parser, Tree};
use vstd::prelude::*;
use vstd::string::*;

verus! {

/// `tree_sitter::Language`: a grammar.
#[verifier::external_type_specification]
#[verifier::external_body]
pub struct ExLanguage(Language);

/// `tree_sitter::Parser`: a parser, with the grammar it was given.
#[verifier::external_type_specification]
#[verifier::external_body]
pub struct ExParser(Parser);

/// `tree_sitter::Tree`: the syntax tree of a text.
#[verifier::external_type_specification]
#[verifier::external_body]
pub struct ExTree(Tree);

/// `tree_sitter::Node`: a node of a syntax tree.
#[verifier::external_type_specification]
#[verifier::external_body]
pub struct ExNode<'tree>(Node<'tree>);

/// The version of the rules of grammars by which a grammar was made
/// (`Language::version`).
pub uninterp spec fn language_version(language: Language) -> usize;

/// The earliest version of grammars that the parsers read
/// (`tree_sitter::MIN_COMPATIBLE_LANGUAGE_VERSION`).
pub const OLDEST_LANGUAGE_VERSION: usize = 13;

/// The latest version of grammars that the parsers read
/// (`tree_sitter::LANGUAGE_VERSION`).
pub const NEWEST_LANGUAGE_VERSION: usize = 14;

/// Whether a parser takes the grammar: its version is one that the parsers
/// read.
pub open spec fn compatible(language: Language) -> bool {
    OLDEST_LANGUAGE_VERSION <= language_version(language) <= NEWEST_LANGUAGE_VERSION
}

/// The message of a parser that does not take a grammar of this version.
pub open spec fn incompatible_message(version: usize) -> Seq<char> {
    "Incompatible language version "@ + decimal(version as nat) + ". Expected minimum "@ + decimal(
        OLDEST_LANGUAGE_VERSION as nat,
    ) + ", maximum "@ + decimal(NEWEST_LANGUAGE_VERSION as nat)
}

/// The grammar that a parser reads with (`Parser::language`).
pub uninterp spec fn parser_language(parser: Parser) -> Option<Language>;

/// What is read of a syntax tree: whether it holds a syntax error, whether
/// every node that is read has the children it counts, and the tree itself
/// as far as it is read.
pub ghost struct TreeReading {
    pub error: bool,
    pub complete: bool,
    pub root: NodeView,
}

/// What is read of the tree that a parser with this grammar makes of a text
/// (`Parser::parse`); `None` where it makes no tree. Two trees of one text
/// are two objects, and what is read of them is the same.
pub uninterp spec fn parsed_reading(language: Option<Language>, text: Seq<u8>) -> Option<
    TreeReading,
>;

/// The root of a tree (`Tree::root_node`).
pub uninterp spec fn tree_root(tree: &Tree) -> Node<'_>;

/// Whether the tree under a node holds a syntax error (`Node::has_error`).
pub uninterp spec fn node_holds_error(node: Node<'_>) -> bool;

/// The name of a node's kind (`Node::kind`).
pub uninterp spec fn node_kind_name(node: Node<'_>) -> Seq<char>;

/// Whether a node is a named one (`Node::is_named`).
pub uninterp spec fn node_named(node: Node<'_>) -> bool;

/// The byte at which a node starts (`Node::start_byte`).
pub uninterp spec fn node_start(node: Node<'_>) -> usize;

/// The byte at which a node ends (`Node::end_byte`).
pub uninterp spec fn node_end(node: Node<'_>) -> usize;

/// The row on which a node starts (`Node::start_position`).
pub uninterp spec fn node_row(node: Node<'_>) -> usize;

/// The number of a node's children (`Node::child_count`).
pub uninterp spec fn node_child_total(node: Node<'_>) -> usize;

/// The child of a node at an index (`Node::child`).
pub uninterp spec fn node_child_at(node: Node<'_>, index: usize) -> Option<Node<'_>>;

/// The first child of a node with a field name (`Node::child_by_field_name`).
pub uninterp spec fn node_field(node: Node<'_>, field: Seq<char>) -> Option<Node<'_>>;

/// Whether two nodes are the same node (`==` on `Node`).
pub uninterp spec fn node_same(a: Node<'_>, b: Node<'_>) -> bool;

/// `Parser::new`: a parser that has no grammar yet.
#[verifier::external_body]
pub(crate) fn new_parser() -> Parser {
    Parser::new()
}

/// `tree_sitter_typescript::language_typescript`: the grammar of TypeScript.
#[verifier::external_body]
pub(crate) fn typescript_language() -> Language {
    tree_sitter_typescript::language_typescript()
}

/// `tree_sitter_typescript::language_tsx`: the grammar of TSX.
#[verifier::external_body]
pub(crate) fn tsx_language() -> Language {
    tree_sitter_typescript::language_tsx()
}

/// `Parser::set_language`: it succeeds where the version of the grammar is
/// one that the parsers read, and the parser reads with the grammar from
/// then on. Else it fails; the error is the message of `LanguageError`,
/// which gives the version and the two bounds.
#[verifier::external_body]
pub(crate) fn set_language(parser: &mut Parser, language: &Language) -> (r: Result<(), String>)
    ensures
        r is Ok <==> compatible(*language),
        r is Ok ==> parser_language(*final(parser)) == Some(*language),
        r matches Err(message) ==> message@ == incompatible_message(language_version(*language)),
{
    parser.set_language(language).map_err(|err| format!("{err}"))
}

/// What is read of a tree: of its root, down to the depth that is read.
pub open spec fn reading_of(tree: &Tree) -> TreeReading {
    let root = tree_root(tree);
    TreeReading {
        error: node_holds_error(root),
        complete: node_complete(root, SNAPSHOT_DEPTH as nat),
        root: node_model(root, None, SNAPSHOT_DEPTH as nat),
    }
}

/// `Parser::parse` without an earlier tree, on a parser that was given a
/// grammar at most and nothing else (no timeout, no flag to cancel, no
/// ranges): what is read of the tree depends on the parser's grammar and the
/// text alone, and the parser keeps its grammar. There is no tree where the
/// parser has no grammar. Of the tree as an object nothing is said: each
/// call makes a new one.
#[verifier::external_body]
pub(crate) fn parse_text(parser: &mut Parser, text: &str) -> (r: Option<Tree>)
    ensures
        match r {
            Some(tree) => parsed_reading(parser_language(*old(parser)), text.spec_bytes()) == Some(
                reading_of(&tree),
            ),
            None => parsed_reading(parser_language(*old(parser)), text.spec_bytes()) is None,
        },
        parser_language(*final(parser)) == parser_language(*old(parser)),
{
    parser.parse(text, None)
}

/// `Tree::root_node`.
#[verifier::external_body]
pub(crate) fn root_node<'t>(tree: &'t Tree) -> (r: Node<'t>)
    ensures
        r == tree_root(tree),
{
    tree.root_node()
}

/// `Node::has_error`: whether the node is a syntax error or holds one.
#[verifier::external_body]
pub(crate) fn node_has_error(node: &Node<'_>) -> (r: bool)
    ensures
        r == node_holds_error(*node),
{
    node.has_error()
}

/// `Node::kind`: the name of the node's kind in the grammar.
#[verifier::external_body]
pub(crate) fn node_kind(node: &Node<'_>) -> (r: &'static str)
    ensures
        r@ == node_kind_name(*node),
{
    node.kind()
}

/// `Node::is_named`.
#[verifier::external_body]
pub(crate) fn node_is_named(node: &Node<'_>) -> (r: bool)
    ensures
        r == node_named(*node),
{
    node.is_named()
}

/// `Node::start_byte`.
#[verifier::external_body]
pub(crate) fn node_start_byte(node: &Node<'_>) -> (r: usize)
    ensures
        r == node_start(*node),
{
    node.start_byte()
}

/// `Node::end_byte`.
#[verifier::external_body]
pub(crate) fn node_end_byte(node: &Node<'_>) -> (r: usize)
    ensures
        r == node_end(*node),
{
    node.end_byte()
}

/// `Node::start_position`, of which the row is taken.
#[verifier::external_body]
pub(crate) fn node_start_row(node: &Node<'_>) -> (r: usize)
    ensures
        r == node_row(*node),
{
    node.start_position().row
}

/// `Node::child_count`.
#[verifier::external_body]
pub(crate) fn node_child_count(node: &Node<'_>) -> (r: usize)
    ensures
        r == node_child_total(*node),
{
    node.child_count()
}

/// `Node::child`.
#[verifier::external_body]
pub(crate) fn node_child<'t>(node: &Node<'t>, index: usize) -> (r: Option<Node<'t>>)
    ensures
        r == node_child_at(*node, index),
{
    node.child(index)
}

/// `Node::child_by_field_name`: the first child that the node holds under
/// this field name.
#[verifier::external_body]
pub(crate) fn node_field_child<'t>(node: &Node<'t>, field: &str) -> (r: Option<Node<'t>>)
    ensures
        r == node_field(*node, field@),
{
    node.child_by_field_name(field)
}

/// `==` on `Node`: whether both are the same node of a tree.
#[verifier::external_body]
pub(crate) fn same_node(a: &Node<'_>, b: &Node<'_>) -> (r: bool)
    ensures
        r == node_same(*a, *b),
{
    a == b
}

} // verus!
