use vstd::prelude::*;

use crate::guard::{guarded, is_guarded, FailureKind};
use crate::tree::{NodeKind, SyntaxTree};

verus! {

/// A call found in a function body: the callee's name as written, not yet
/// resolved, and the call node.
#[derive(Clone, Debug)]
pub struct CallSite {
    pub name: String,
    pub node: usize,
}

/// Node `i` is a call whose called expression is present.
pub open spec fn is_named_call(tree: SyntaxTree, i: int) -> bool {
    tree.nodes@[i].kind == NodeKind::Call && tree.nodes@[i].key_child is Some
}

/// The call site that node `i` gives, where `is_named_call` holds.
pub open spec fn site_of(tree: SyntaxTree, i: int) -> CallSite {
    CallSite { name: tree.nodes@[tree.nodes@[i].key_child.unwrap() as int].text, node: i as usize }
}

/// The call sites among nodes `lo..hi`, in pre-order.
pub open spec fn calls_between(tree: SyntaxTree, lo: int, hi: int) -> Seq<CallSite>
    decreases hi - lo,
{
    if hi <= lo {
        Seq::empty()
    } else if is_named_call(tree, hi - 1) {
        calls_between(tree, lo, hi - 1).push(site_of(tree, hi - 1))
    } else {
        calls_between(tree, lo, hi - 1)
    }
}

/// Every call site in the subtree of `body`, nested function bodies included.
pub open spec fn calls_in(tree: SyntaxTree, body: int) -> Seq<CallSite> {
    calls_between(tree, body, tree.nodes@[body].end as int)
}

/// Node `i` is an indexing access that no enclosing handler guards against
/// a missing key.
pub open spec fn is_unguarded_access(tree: SyntaxTree, i: int) -> bool {
    tree.nodes@[i].kind == NodeKind::Subscript && !guarded(tree, i, FailureKind::KeyNotFound)
}

/// The unguarded accesses among nodes `lo..hi`, in pre-order.
pub open spec fn accesses_between(tree: SyntaxTree, lo: int, hi: int) -> Seq<usize>
    decreases hi - lo,
{
    if hi <= lo {
        Seq::empty()
    } else if is_unguarded_access(tree, hi - 1) {
        accesses_between(tree, lo, hi - 1).push((hi - 1) as usize)
    } else {
        accesses_between(tree, lo, hi - 1)
    }
}

/// Every unguarded access in the subtree of `body`.
pub open spec fn accesses_in(tree: SyntaxTree, body: int) -> Seq<usize> {
    accesses_between(tree, body, tree.nodes@[body].end as int)
}

/// A node in `lo..hi` is the `k`-th item of `accesses_between` exactly when it
/// is an unguarded access.
pub proof fn lemma_accesses_between(tree: SyntaxTree, lo: int, hi: int)
    requires
        0 <= lo,
        hi <= usize::MAX,
    ensures
        forall|k: int| 0 <= k < accesses_between(tree, lo, hi).len() ==> {
            let a = #[trigger] accesses_between(tree, lo, hi)[k] as int;
            lo <= a < hi && is_unguarded_access(tree, a)
        },
        forall|a: int| lo <= a < hi && is_unguarded_access(tree, a) ==>
            accesses_between(tree, lo, hi).contains(a as usize),
    decreases hi - lo,
{
    if hi > lo {
        lemma_accesses_between(tree, lo, hi - 1);
        let prev = accesses_between(tree, lo, hi - 1);
        if is_unguarded_access(tree, hi - 1) {
            let cur = accesses_between(tree, lo, hi);
            assert(cur[prev.len() as int] == (hi - 1) as usize);
            assert forall|k: int| 0 <= k < cur.len() implies {
                let a = #[trigger] cur[k] as int;
                lo <= a < hi && is_unguarded_access(tree, a)
            } by {
                if k < prev.len() {
                    assert(cur[k] == prev[k]);
                }
            }
            assert forall|a: int| lo <= a < hi && is_unguarded_access(tree, a) implies
                accesses_between(tree, lo, hi).contains(a as usize) by {
                if a < hi - 1 {
                    let k = choose|k: int| 0 <= k < prev.len() && prev[k] == a as usize;
                    assert(accesses_between(tree, lo, hi)[k] == a as usize);
                }
            }
        }
    }
}

/// A node in `lo..hi` is a call site of `calls_between` exactly when it is a
/// named call.
pub proof fn lemma_calls_between(tree: SyntaxTree, lo: int, hi: int)
    requires
        0 <= lo,
        hi <= usize::MAX,
    ensures
        forall|k: int| 0 <= k < calls_between(tree, lo, hi).len() ==> {
            let c = #[trigger] calls_between(tree, lo, hi)[k];
            lo <= c.node < hi && is_named_call(tree, c.node as int) && c == site_of(tree, c.node as int)
        },
        forall|i: int| lo <= i < hi && is_named_call(tree, i) ==>
            calls_between(tree, lo, hi).contains(#[trigger] site_of(tree, i)),
    decreases hi - lo,
{
    if hi > lo {
        lemma_calls_between(tree, lo, hi - 1);
        let prev = calls_between(tree, lo, hi - 1);
        if is_named_call(tree, hi - 1) {
            let cur = calls_between(tree, lo, hi);
            assert(cur[prev.len() as int] == site_of(tree, hi - 1));
            assert forall|k: int| 0 <= k < cur.len() implies {
                let c = #[trigger] cur[k];
                lo <= c.node < hi && is_named_call(tree, c.node as int) && c == site_of(tree, c.node as int)
            } by {
                if k < prev.len() {
                    assert(cur[k] == prev[k]);
                }
            }
            assert forall|i: int| lo <= i < hi && is_named_call(tree, i) implies
                calls_between(tree, lo, hi).contains(#[trigger] site_of(tree, i)) by {
                if i < hi - 1 {
                    let k = choose|k: int| 0 <= k < prev.len() && prev[k] == site_of(tree, i);
                    assert(calls_between(tree, lo, hi)[k] == site_of(tree, i));
                }
            }
        }
    }
}

/// Collects every call in the subtree of `body` with the callee's name as
/// written; a call without a called expression is left out.
pub fn collect_calls(tree: &SyntaxTree, body: usize) -> (r: Vec<CallSite>)
    requires
        tree.wf(),
        body < tree.len(),
    ensures
        r@ == calls_in(*tree, body as int),
{
    proof {
        assert(tree.node_wf(body as int));
    }
    let end = tree.nodes[body].end;
    let mut r: Vec<CallSite> = Vec::new();
    let mut i: usize = body;
    while i < end
        invariant
            tree.wf(),
            body <= i <= end,
            end == tree.nodes@[body as int].end,
            end <= tree.len(),
            r@ == calls_between(*tree, body as int, i as int),
        decreases end - i,
    {
        let n = &tree.nodes[i];
        if n.kind == NodeKind::Call {
            match n.key_child {
                Some(c) => {
                    proof {
                        assert(tree.node_wf(i as int));
                    }
                    let name = tree.nodes[c].text.clone();
                    r.push(CallSite { name, node: i });
                },
                None => {},
            }
        }
        i = i + 1;
    }
    r
}

/// Collects, in pre-order, every indexing access in the subtree of `body`
/// that no enclosing handler guards against a missing key.
pub fn find_unguarded_accesses(tree: &SyntaxTree, body: usize) -> (r: Vec<usize>)
    requires
        tree.wf(),
        body < tree.len(),
    ensures
        r@ == accesses_in(*tree, body as int),
{
    proof {
        assert(tree.node_wf(body as int));
    }
    let end = tree.nodes[body].end;
    let mut r: Vec<usize> = Vec::new();
    let mut i: usize = body;
    while i < end
        invariant
            tree.wf(),
            body <= i <= end,
            end == tree.nodes@[body as int].end,
            end <= tree.len(),
            r@ == accesses_between(*tree, body as int, i as int),
        decreases end - i,
    {
        if tree.nodes[i].kind == NodeKind::Subscript && !is_guarded(tree, i, FailureKind::KeyNotFound) {
            r.push(i);
        }
        i = i + 1;
    }
    r
}

} // verus!
