use vstd::prelude::*;

verus! {

/// The kinds of syntax node that the analysis tells apart.
#[derive(Clone, Copy, Debug, PartialEq, Eq, Structural)]
pub enum NodeKind {
    /// A function definition; its key child is the function's name.
    FunctionDefinition,
    /// A call expression; its key child is the called expression, if any.
    Call,
    /// An indexing operation `value[key]`.
    Subscript,
    /// A `try` statement.
    TryStatement,
    /// A handler clause of a `try` statement; its key child is the declared
    /// exception type, absent for a catch-all handler.
    ExceptClause,
    /// Any other node.
    Other,
}

/// One node of a syntax tree held in pre-order.
#[derive(Clone, Debug)]
pub struct SyntaxNode {
    pub kind: NodeKind,
    /// Index of the parent node; `None` for the root only.
    pub parent: Option<usize>,
    /// One past the index of the last node of this node's subtree: the
    /// subtree of node `i` is the index range `i..end`.
    pub end: usize,
    /// The field child the analysis reads for this kind of node: a function
    /// definition's `name`, a call's `function`, a handler's `type`.
    pub key_child: Option<usize>,
    /// 0-based row on which the node starts.
    pub row: usize,
    /// The source text that the node spans, where the analysis reads it (a
    /// key child); it may be left empty elsewhere.
    pub text: String,
}

/// A syntax tree as an array of nodes in pre-order; node 0 is the root.
#[derive(Clone, Debug)]
pub struct SyntaxTree {
    pub nodes: Vec<SyntaxNode>,
}

impl SyntaxNode {
    /// The 1-based line on which the node starts.
    pub open spec fn spec_line(&self) -> int {
        self.row + 1
    }
}

impl SyntaxTree {
    pub open spec fn len(&self) -> int {
        self.nodes@.len() as int
    }

    /// Conditions on node `i` alone that make the array a tree in pre-order.
    pub open spec fn node_wf(&self, i: int) -> bool {
        let n = self.nodes@[i];
        &&& i < n.end <= self.len()
        &&& n.row < usize::MAX
        &&& (i == 0 ==> n.parent is None && n.end == self.len())
        &&& (i > 0 ==> match n.parent {
            Some(p) => p < i && i < self.nodes@[p as int].end,
            None => false,
        })
        &&& (match n.key_child {
            Some(c) => i < c < n.end,
            None => true,
        })
    }

    pub open spec fn wf(&self) -> bool {
        &&& self.len() > 0
        &&& forall|i: int| 0 <= i < self.len() ==> #[trigger] self.node_wf(i)
    }

    /// Node `c` is an immediate child of node `p`.
    pub open spec fn is_child(&self, p: int, c: int) -> bool {
        &&& 0 <= p < c < self.nodes@[p].end
        &&& self.nodes@[c].parent == Some(p as usize)
    }

    /// Node `a` is a proper ancestor of node `n`, following parent links.
    pub open spec fn is_ancestor(&self, a: int, n: int) -> bool
        decreases n,
    {
        if 0 <= n < self.len() {
            match self.nodes@[n].parent {
                Some(p) => p < n && (a == p || self.is_ancestor(a, p as int)),
                None => false,
            }
        } else {
            false
        }
    }

    /// The text of the key child of node `i`, if it has one.
    pub open spec fn key_text(&self, i: int) -> Option<Seq<char>> {
        match self.nodes@[i].key_child {
            Some(c) => Some(self.nodes@[c as int].text@),
            None => None,
        }
    }

    /// Checks the conditions of `wf`, so that a tree built elsewhere can be
    /// handed to the analysis.
    pub fn check_well_formed(&self) -> (r: bool)
        ensures
            r == self.wf(),
    {
        let len = self.nodes.len();
        if len == 0 {
            return false;
        }
        let mut i: usize = 0;
        while i < len
            invariant
                len == self.nodes@.len(),
                0 < len,
                i <= len,
                forall|j: int| 0 <= j < i ==> #[trigger] self.node_wf(j),
            decreases len - i,
        {
            let n = &self.nodes[i];
            let parent_ok = if i == 0 {
                n.parent.is_none() && n.end == len
            } else {
                match n.parent {
                    Some(p) => p < i && i < self.nodes[p].end,
                    None => false,
                }
            };
            let key_ok = match n.key_child {
                Some(c) => i < c && c < n.end,
                None => true,
            };
            if !(i < n.end && n.end <= len && n.row < usize::MAX && parent_ok && key_ok) {
                assert(!self.node_wf(i as int));
                return false;
            }
            i = i + 1;
        }
        true
    }
}

} // verus!
