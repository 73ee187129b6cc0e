use vstd::prelude::*;

use crate::tree::{NodeKind, SyntaxTree};

verus! {

/// A failure that a function may let escape to its callers.
#[derive(Clone, Copy, Debug, PartialEq, Eq, Structural)]
pub enum FailureKind {
    /// A lookup of a key that the mapping does not hold.
    KeyNotFound,
}

/// The handler type names taken to catch `kind`. The catch-all supertype
/// name counts by convention; no type hierarchy is consulted.
pub open spec fn catches_by_name(kind: FailureKind, name: Seq<char>) -> bool {
    match kind {
        FailureKind::KeyNotFound => name == "KeyError"@ || name == "Exception"@,
    }
}

/// Node `h` is a handler clause that catches `kind`: a catch-all handler,
/// or one whose declared type is one of the accepted names.
pub open spec fn handler_catches(tree: SyntaxTree, h: int, kind: FailureKind) -> bool {
    &&& tree.nodes@[h].kind == NodeKind::ExceptClause
    &&& match tree.key_text(h) {
        Some(t) => catches_by_name(kind, t),
        None => true,
    }
}

/// Node `t` is a `try` statement with an immediate handler that catches `kind`.
pub open spec fn try_catches(tree: SyntaxTree, t: int, kind: FailureKind) -> bool {
    &&& tree.nodes@[t].kind == NodeKind::TryStatement
    &&& exists|h: int| #[trigger] tree.is_child(t, h) && handler_catches(tree, h, kind)
}

/// Some node on the chain from `n` up to the root is a `try` statement that
/// catches `kind`.
pub open spec fn guarded(tree: SyntaxTree, n: int, kind: FailureKind) -> bool
    decreases n,
{
    if 0 <= n < tree.len() {
        try_catches(tree, n, kind) || match tree.nodes@[n].parent {
            Some(p) => p < n && guarded(tree, p as int, kind),
            None => false,
        }
    } else {
        false
    }
}

/// A handler that catches `kind`, on a `try` statement at `n` or above it,
/// guards `n`.
pub proof fn lemma_enclosing_handler_guards(tree: SyntaxTree, n: int, t: int, h: int, kind: FailureKind)
    requires
        0 <= n < tree.len(),
        t == n || tree.is_ancestor(t, n),
        tree.nodes@[t].kind == NodeKind::TryStatement,
        tree.is_child(t, h),
        handler_catches(tree, h, kind),
    ensures
        guarded(tree, n, kind),
    decreases n,
{
    if t != n {
        let p = tree.nodes@[n].parent.unwrap() as int;
        assert(p < n);
        if t != p {
            lemma_enclosing_handler_guards(tree, p, t, h, kind);
        } else {
            assert(try_catches(tree, p, kind));
        }
        assert(guarded(tree, p, kind));
    } else {
        assert(try_catches(tree, n, kind));
    }
}

/// Where every handler of every `try` statement at `n` or above it names
/// a type that is not taken to catch `kind`, nothing guards `n`.
pub proof fn lemma_no_matching_handler(tree: SyntaxTree, n: int, kind: FailureKind)
    requires
        0 <= n < tree.len(),
        forall|a: int, h: int|
            (a == n || tree.is_ancestor(a, n)) && tree.nodes@[a].kind == NodeKind::TryStatement
            && #[trigger] tree.is_child(a, h) && tree.nodes@[h].kind == NodeKind::ExceptClause
            ==> match tree.key_text(h) {
                Some(t) => !catches_by_name(kind, t),
                None => false,
            },
    ensures
        !guarded(tree, n, kind),
    decreases n,
{
    assert(!try_catches(tree, n, kind));
    match tree.nodes@[n].parent {
        Some(p) => {
            if p < n {
                let p = p as int;
                assert forall|a: int, h: int|
                    (a == p || tree.is_ancestor(a, p)) && tree.nodes@[a].kind == NodeKind::TryStatement
                    && #[trigger] tree.is_child(a, h) && tree.nodes@[h].kind == NodeKind::ExceptClause
                    implies match tree.key_text(h) {
                        Some(t) => !catches_by_name(kind, t),
                        None => false,
                    } by {
                    assert(tree.is_ancestor(a, n));
                }
                lemma_no_matching_handler(tree, p, kind);
            }
        },
        None => {},
    }
}

/// Whether `text` is a handler type name taken to catch `kind`.
fn handler_name_matches(kind: FailureKind, text: &String) -> (r: bool)
    ensures
        r == catches_by_name(kind, text@),
{
    match kind {
        FailureKind::KeyNotFound => {
            let key_error = String::from_str("KeyError");
            let exception = String::from_str("Exception");
            *text == key_error || *text == exception
        },
    }
}

/// Whether `t`, a node of kind `TryStatement`, has an immediate handler
/// that catches `kind`. Nested `try` statements are not entered.
fn try_has_handler(tree: &SyntaxTree, t: usize, kind: FailureKind) -> (r: bool)
    requires
        tree.wf(),
        t < tree.len(),
        tree.nodes@[t as int].kind == NodeKind::TryStatement,
    ensures
        r == try_catches(*tree, t as int, kind),
{
    let end = tree.nodes[t].end;
    proof {
        assert(tree.node_wf(t as int));
    }
    let mut j: usize = t + 1;
    while j < end
        invariant
            tree.wf(),
            t < j <= end,
            end == tree.nodes@[t as int].end,
            end <= tree.len(),
            tree.nodes@[t as int].kind == NodeKind::TryStatement,
            forall|h: int| t < h < j ==> !(#[trigger] tree.is_child(t as int, h) && handler_catches(*tree, h, kind)),
        decreases end - j,
    {
        let c = &tree.nodes[j];
        if c.parent == Some(t) && c.kind == NodeKind::ExceptClause {
            proof {
                assert(tree.node_wf(j as int));
            }
            match c.key_child {
                None => {
                    assert(tree.is_child(t as int, j as int));
                    return true;
                },
                Some(k) => {
                    if handler_name_matches(kind, &tree.nodes[k].text) {
                        assert(tree.is_child(t as int, j as int));
                        return true;
                    }
                },
            }
        }
        j = j + 1;
    }
    false
}

/// Whether an enclosing `try` statement would catch `kind` raised at node `n`:
/// the chain of ancestors from `n` up to the root is searched for one.
pub fn is_guarded(tree: &SyntaxTree, n: usize, kind: FailureKind) -> (r: bool)
    requires
        tree.wf(),
        n < tree.len(),
    ensures
        r == guarded(*tree, n as int, kind),
{
    let mut cur: usize = n;
    loop
        invariant
            tree.wf(),
            cur < tree.len(),
            guarded(*tree, n as int, kind) == guarded(*tree, cur as int, kind),
        decreases cur,
    {
        proof {
            assert(tree.node_wf(cur as int));
        }
        if tree.nodes[cur].kind == NodeKind::TryStatement && try_has_handler(tree, cur, kind) {
            return true;
        }
        match tree.nodes[cur].parent {
            Some(p) => {
                cur = p;
            },
            None => {
                return false;
            },
        }
    }
}

} // verus!
