use vstd::prelude::*;

use crate::tree::{NodeKind, SyntaxNode, SyntaxTree};

verus! {

/// tree-sitter's parser, its trees, nodes and cursors, carried through
/// opaquely: the analysis reads them only through the functions below.
#[verifier::external_type_specification]
#[verifier::external_body]
pub struct ExParser(tree_sitter::Parser);

#[verifier::external_type_specification]
#[verifier::external_body]
pub struct ExTree(tree_sitter::Tree);

#[verifier::external_type_specification]
#[verifier::external_body]
pub struct ExNode<'tree>(tree_sitter::Node<'tree>);

#[verifier::external_type_specification]
#[verifier::external_body]
pub struct ExTreeCursor<'cursor>(tree_sitter::TreeCursor<'cursor>);

/// Why a source text could not be turned into a syntax tree.
#[derive(Clone, Copy, Debug, PartialEq, Eq, Structural)]
pub enum SourceError {
    /// The parser refused the Python grammar.
    Grammar,
    /// The parser returned no tree.
    NoTree,
    /// The text of the name or handler type at this pre-order position
    /// cannot be read from the source.
    Text { node: usize },
    /// The parser's tree does not form a tree in pre-order as read.
    Structure,
}

/// Relies on `tree_sitter::Parser::new`: a parser with no language set.
#[verifier::external_body]
fn new_parser() -> tree_sitter::Parser {
    tree_sitter::Parser::new()
}

/// Relies on `tree_sitter::Parser::set_language` with the grammar of
/// `tree_sitter_python`; false where the grammar's version is refused.
#[verifier::external_body]
fn set_python_language(parser: &mut tree_sitter::Parser) -> bool {
    parser.set_language(&tree_sitter_python::LANGUAGE.into()).is_ok()
}

/// Relies on `tree_sitter::Parser::parse`: the syntax tree of `source`, or
/// none where parsing was stopped.
#[verifier::external_body]
fn parse_text(parser: &mut tree_sitter::Parser, source: &str) -> Option<tree_sitter::Tree> {
    parser.parse(source, None)
}

/// Relies on `tree_sitter::Tree::root_node`.
#[verifier::external_body]
fn root_node<'t>(tree: &'t tree_sitter::Tree) -> tree_sitter::Node<'t> {
    tree.root_node()
}

/// Relies on `tree_sitter::Node::walk`: a cursor whose descendants are
/// counted from `node`.
#[verifier::external_body]
fn walk<'t>(node: &tree_sitter::Node<'t>) -> tree_sitter::TreeCursor<'t> {
    node.walk()
}

/// Relies on `tree_sitter::TreeCursor::goto_descendant`: moves to the
/// descendant at pre-order position `index` of the cursor's first node.
#[verifier::external_body]
fn goto_descendant(cursor: &mut tree_sitter::TreeCursor, index: usize) {
    cursor.goto_descendant(index)
}

/// Relies on `tree_sitter::TreeCursor::node`: the node under the cursor.
#[verifier::external_body]
fn cursor_node<'t>(cursor: &tree_sitter::TreeCursor<'t>) -> tree_sitter::Node<'t> {
    cursor.node()
}

/// Relies on `tree_sitter::Node::descendant_count`: the size of the node's
/// subtree, the node included.
#[verifier::external_body]
fn descendant_count(node: &tree_sitter::Node) -> usize {
    node.descendant_count()
}

/// Relies on `tree_sitter::Node::kind`: the grammar's name for the node.
#[verifier::external_body]
fn node_kind(node: &tree_sitter::Node) -> String {
    node.kind().to_string()
}

/// Relies on `tree_sitter::Node::start_position`: its 0-based row.
#[verifier::external_body]
fn start_row(node: &tree_sitter::Node) -> usize {
    node.start_position().row
}

/// Relies on `tree_sitter::Node::id`: equal for the same node of one tree.
#[verifier::external_body]
fn node_id(node: &tree_sitter::Node) -> usize {
    node.id()
}

/// Relies on `tree_sitter::Node::child_by_field_name`.
#[verifier::external_body]
fn field_child<'t>(node: &tree_sitter::Node<'t>, field: &str) -> Option<tree_sitter::Node<'t>> {
    node.child_by_field_name(field)
}

/// Relies on `tree_sitter::Node::named_child`: the named child at `index`.
#[verifier::external_body]
fn named_child<'t>(node: &tree_sitter::Node<'t>, index: usize) -> Option<tree_sitter::Node<'t>> {
    node.named_child(index)
}

/// Relies on `tree_sitter::Node::start_byte` and `end_byte`: the node's span
/// of `source`, none where that span is not a valid range of `source`.
#[verifier::external_body]
fn node_text(node: &tree_sitter::Node, source: &str) -> Option<String> {
    source.get(node.start_byte()..node.end_byte()).map(|t| t.to_string())
}

/// The kind that the grammar's node name `name` stands for.
pub open spec fn kind_named(name: Seq<char>) -> NodeKind {
    if name == "function_definition"@ {
        NodeKind::FunctionDefinition
    } else if name == "call"@ {
        NodeKind::Call
    } else if name == "subscript"@ {
        NodeKind::Subscript
    } else if name == "try_statement"@ {
        NodeKind::TryStatement
    } else if name == "except_clause"@ {
        NodeKind::ExceptClause
    } else {
        NodeKind::Other
    }
}

/// Classifies a node by the grammar's name for it.
pub fn classify(name: &String) -> (r: NodeKind)
    ensures
        r == kind_named(name@),
{
    if *name == String::from_str("function_definition") {
        NodeKind::FunctionDefinition
    } else if *name == String::from_str("call") {
        NodeKind::Call
    } else if *name == String::from_str("subscript") {
        NodeKind::Subscript
    } else if *name == String::from_str("try_statement") {
        NodeKind::TryStatement
    } else if *name == String::from_str("except_clause") {
        NodeKind::ExceptClause
    } else {
        NodeKind::Other
    }
}

/// The field child that the analysis reads for a node of kind `kind`: a
/// function's name, a call's called expression, a handler's exception type.
/// The Python grammar names the handler's type `value` where others say
/// `type`, and wraps `Type as name` in an `as_pattern` whose first named
/// child is the type.
fn key_field<'t>(node: &tree_sitter::Node<'t>, kind: NodeKind) -> Option<tree_sitter::Node<'t>> {
    match kind {
        NodeKind::FunctionDefinition => field_child(node, "name"),
        NodeKind::Call => field_child(node, "function"),
        NodeKind::ExceptClause => {
            let declared = match field_child(node, "type") {
                Some(c) => Some(c),
                None => field_child(node, "value"),
            };
            match declared {
                Some(c) => {
                    if node_kind(&c) == String::from_str("as_pattern") {
                        named_child(&c, 0)
                    } else {
                        Some(c)
                    }
                },
                None => None,
            }
        },
        _ => None,
    }
}

/// Parses Python source text and lays its syntax tree out in pre-order.
/// Only the texts that the analysis reads, those of key children, are kept.
pub fn parse_python(source: &str) -> (r: Result<SyntaxTree, SourceError>)
    ensures
        r matches Ok(t) ==> t.wf(),
{
    let mut parser = new_parser();
    if !set_python_language(&mut parser) {
        return Err(SourceError::Grammar);
    }
    let tree = match parse_text(&mut parser, source) {
        Some(t) => t,
        None => {
            return Err(SourceError::NoTree);
        },
    };
    let root = root_node(&tree);
    let n = descendant_count(&root);
    let mut cursor = walk(&root);
    let mut nodes: Vec<SyntaxNode> = Vec::new();
    // `wanted[j]` is the id of the key child that node `j` waits for;
    // `open` holds the ancestors of the node being read, innermost last.
    let mut wanted: Vec<Option<usize>> = Vec::new();
    let mut open: Vec<usize> = Vec::new();
    let mut i: usize = 0;
    while i < n
        invariant
            i <= n,
            nodes@.len() == i,
            wanted@.len() == i,
            forall|j: int| 0 <= j < open@.len() ==> #[trigger] open@[j] < i,
        decreases n - i,
    {
        goto_descendant(&mut cursor, i);
        let node = cursor_node(&cursor);
        let count = descendant_count(&node);
        if count > n - i {
            return Err(SourceError::Structure);
        }
        let end = i + count;
        while open.len() > 0 && nodes[open[open.len() - 1]].end <= i
            invariant
                nodes@.len() == i,
                forall|j: int| 0 <= j < open@.len() ==> #[trigger] open@[j] < i,
            decreases open@.len(),
        {
            open.pop();
        }
        let parent = if open.len() > 0 {
            Some(open[open.len() - 1])
        } else {
            None
        };
        let kind = classify(&node_kind(&node));
        let mut text = String::new();
        let id = node_id(&node);
        let mut a: usize = 0;
        while a < open.len()
            invariant
                nodes@.len() == i,
                wanted@.len() == i,
                forall|j: int| 0 <= j < open@.len() ==> #[trigger] open@[j] < i,
            decreases open@.len() - a,
        {
            let p = open[a];
            if wanted[p] == Some(id) {
                match node_text(&node, source) {
                    Some(t) => {
                        text = t;
                        let owner = SyntaxNode {
                            kind: nodes[p].kind,
                            parent: nodes[p].parent,
                            end: nodes[p].end,
                            key_child: Some(i),
                            row: nodes[p].row,
                            text: nodes[p].text.clone(),
                        };
                        nodes.set(p, owner);
                    },
                    None => {
                        // A call whose callee text cannot be read is left
                        // without a name and so dropped from the call sites.
                        if nodes[p].kind != NodeKind::Call {
                            return Err(SourceError::Text { node: i });
                        }
                    },
                }
            }
            a = a + 1;
        }
        let want = match key_field(&node, kind) {
            Some(c) => Some(node_id(&c)),
            None => None,
        };
        nodes.push(SyntaxNode { kind, parent, end, key_child: None, row: start_row(&node), text });
        wanted.push(want);
        open.push(i);
        i = i + 1;
    }
    let t = SyntaxTree { nodes };
    if t.check_well_formed() {
        Ok(t)
    } else {
        Err(SourceError::Structure)
    }
}

} // verus!
