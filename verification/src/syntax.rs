use crate::text::{cut_point, range_fits, str_slice};
use vstd::prelude::*;
use vstd::string::*;
use vstd::utf8::*;

verus! {

/// What a node of the syntax tree is, as far as the extraction tells kinds
/// apart.
#[derive(Debug, Clone, Copy, PartialEq, Eq, Structural)]
pub enum NodeKind {
    ExportStatement,
    ExportClause,
    NamespaceExport,
    FunctionDeclaration,
    LexicalDeclaration,
    InterfaceDeclaration,
    TypeAliasDeclaration,
    VariableDeclarator,
    Identifier,
    ArrowFunction,
    FunctionExpression,
    Other,
}

/// The fields by which a node names some of its children.
#[derive(Debug, Clone, Copy, PartialEq, Eq, Structural)]
pub enum FieldName {
    Name,
    Parameters,
    Parameter,
    ReturnType,
    Value,
}

/// A node of a concrete syntax tree, with the children it has in the order
/// of the text.
#[derive(Debug)]
pub struct SyntaxNode {
    pub kind: NodeKind,
    /// The field under which the parent names this node, if it does.
    pub field: Option<FieldName>,
    /// Whether the node stands for a rule of the grammar and not for a
    /// literal token.
    pub named: bool,
    pub start_byte: usize,
    pub end_byte: usize,
    /// The row, counted from zero, on which the node starts.
    pub row: usize,
    pub children: Vec<SyntaxNode>,
}

/// A syntax tree as a mathematical value.
pub ghost struct NodeView {
    pub kind: NodeKind,
    pub field: Option<FieldName>,
    pub named: bool,
    pub start_byte: int,
    pub end_byte: int,
    pub row: int,
    pub children: Seq<NodeView>,
}

/// The tree under `node` as a mathematical value.
pub open spec fn node_view(node: SyntaxNode) -> NodeView
    decreases node,
{
    NodeView {
        kind: node.kind,
        field: node.field,
        named: node.named,
        start_byte: node.start_byte as int,
        end_byte: node.end_byte as int,
        row: node.row as int,
        children: Seq::new(
            node.children@.len(),
            |i: int|
                if 0 <= i < node.children@.len() {
                    node_view(node.children@[i])
                } else {
                    arbitrary()
                },
        ),
    }
}

impl View for SyntaxNode {
    type V = NodeView;

    open spec fn view(&self) -> NodeView {
        node_view(*self)
    }
}

/// The place of the first node among `nodes` that its parent names `field`.
pub open spec fn field_index(nodes: Seq<NodeView>, field: FieldName) -> Option<int>
    decreases nodes.len(),
{
    if nodes.len() == 0 {
        None
    } else if nodes[0].field == Some(field) {
        Some(0)
    } else {
        match field_index(nodes.drop_first(), field) {
            Some(i) => Some(i + 1),
            None => None,
        }
    }
}

/// What `field_index` finds is named by the field, and is the first such
/// node.
pub proof fn lemma_field_index(nodes: Seq<NodeView>, field: FieldName)
    ensures
        match field_index(nodes, field) {
            Some(i) => 0 <= i < nodes.len() && nodes[i].field == Some(field) && forall|k: int|
                0 <= k < i ==> (#[trigger] nodes[k]).field != Some(field),
            None => forall|k: int| 0 <= k < nodes.len() ==> (#[trigger] nodes[k]).field != Some(field),
        },
    decreases nodes.len(),
{
    if nodes.len() > 0 && nodes[0].field != Some(field) {
        let t = nodes.drop_first();
        lemma_field_index(t, field);
        match field_index(t, field) {
            Some(i) => {
                assert forall|k: int| 0 <= k < i + 1 implies (#[trigger] nodes[k]).field != Some(
                    field,
                ) by {
                    if k > 0 {
                        assert(nodes[k] == t[k - 1]);
                    }
                }
            },
            None => {
                assert forall|k: int| 0 <= k < nodes.len() implies (#[trigger] nodes[k]).field
                    != Some(field) by {
                    if k > 0 {
                        assert(nodes[k] == t[k - 1]);
                    }
                }
            },
        }
    }
}

impl NodeView {
    /// The first child that the node names `field`.
    pub open spec fn field_child(&self, field: FieldName) -> Option<NodeView> {
        match field_index(self.children, field) {
            Some(i) => Some(self.children[i]),
            None => None,
        }
    }

    /// Whether the node's span is a range of whole characters of `text`, and
    /// the line after its row has a number.
    pub open spec fn span_fits(&self, text: Seq<u8>) -> bool {
        &&& self.start_byte <= self.end_byte
        &&& cut_point(text, self.start_byte)
        &&& cut_point(text, self.end_byte)
        &&& self.row < usize::MAX
    }

    /// Whether the node and all nodes below it fit `text`.
    pub open spec fn fits(&self, text: Seq<u8>) -> bool
        decreases self,
    {
        &&& self.span_fits(text)
        &&& forall|i: int| 0 <= i < self.children.len() ==> (#[trigger] self.children[i]).fits(text)
    }

    /// A child that a fitting node names by a field fits too.
    pub proof fn lemma_field_child_fits(&self, field: FieldName, text: Seq<u8>)
        requires
            self.fits(text),
        ensures
            self.field_child(field) matches Some(c) ==> c.fits(text),
    {
        lemma_field_index(self.children, field);
    }

    /// The text that the node spans.
    pub open spec fn text(&self, text: Seq<u8>) -> Seq<char> {
        decode_utf8(text.subrange(self.start_byte, self.end_byte))
    }
}

impl SyntaxNode {
    /// The children of the view are the views of the children.
    pub proof fn lemma_view_children(&self)
        ensures
            self@.children.len() == self.children@.len(),
            forall|i: int|
                0 <= i < self.children@.len() ==> self@.children[i] == (#[trigger] self.children@[i])@,
    {
    }

    /// The first child that the node names `field`.
    pub fn child_by_field(&self, field: FieldName) -> (r: Option<&SyntaxNode>)
        ensures
            match r {
                Some(c) => self@.field_child(field) == Some(c@),
                None => self@.field_child(field) is None,
            },
    {
        let mut i: usize = 0;
        while i < self.children.len()
            invariant
                i <= self.children.len(),
                forall|k: int| 0 <= k < i ==> (#[trigger] self@.children[k]).field != Some(field),
            decreases self.children.len() - i,
        {
            let c = &self.children[i];
            let hit = match c.field {
                Some(f) => f == field,
                None => false,
            };
            if hit {
                proof {
                    self.lemma_view_children();
                    lemma_field_index(self@.children, field);
                    let found = field_index(self@.children, field);
                    assert(self@.children[i as int].field == Some(field));
                    if found is Some {
                        let at = found->0;
                        assert(self@.children[at].field == Some(field));
                        assert(at == i);
                    }
                }
                return Some(c);
            }
            proof {
                self.lemma_view_children();
            }
            i = i + 1;
        }
        proof {
            self.lemma_view_children();
            lemma_field_index(self@.children, field);
        }
        None
    }

    /// Whether the node and all nodes below it fit `source`.
    pub fn fits_text(&self, source: &str) -> (ok: bool)
        ensures
            ok == self@.fits(source.spec_bytes()),
        decreases self,
    {
        if !(self.row < usize::MAX && range_fits(source, self.start_byte, self.end_byte)) {
            return false;
        }
        let mut i: usize = 0;
        while i < self.children.len()
            invariant
                i <= self.children.len(),
                forall|k: int|
                    0 <= k < i ==> (#[trigger] self@.children[k]).fits(source.spec_bytes()),
            decreases self.children.len() - i,
        {
            proof {
                self.lemma_view_children();
            }
            if !self.children[i].fits_text(source) {
                return false;
            }
            i = i + 1;
        }
        proof {
            self.lemma_view_children();
        }
        true
    }

    /// The text that the node spans.
    pub fn text_in<'a>(&self, source: &'a str) -> (out: &'a str)
        requires
            self@.span_fits(source.spec_bytes()),
        ensures
            out@ == self@.text(source.spec_bytes()),
    {
        str_slice(source, self.start_byte, self.end_byte)
    }
}

} // verus!
