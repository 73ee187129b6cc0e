use vstd::prelude::*;

use crate::guard::{guarded, is_guarded, FailureKind};
use crate::index::{table_wf, FailureSet, FunctionIndex, FunctionInfo};
use crate::sites::{accesses_in, calls_in, collect_calls, find_unguarded_accesses};
use crate::tree::SyntaxTree;

verus! {

/// The body at `body` raises `kind` itself: for a missing key, through an
/// unguarded access.
pub open spec fn raises_locally(tree: SyntaxTree, body: int, kind: FailureKind) -> bool {
    kind == FailureKind::KeyNotFound && accesses_in(tree, body).len() > 0
}

/// One of the first `n` call sites of the body at `body` names an entry of
/// `fs` that may raise `kind`, and no handler around the call catches `kind`.
pub open spec fn inherits_upto(tree: SyntaxTree, fs: Seq<FunctionInfo>, body: int, kind: FailureKind, n: int) -> bool {
    exists|c: int, g: int|
        0 <= c < n && 0 <= g < fs.len()
        && #[trigger] fs[g].name@ == #[trigger] calls_in(tree, body)[c].name@
        && fs[g].may_raise@.contains(kind)
        && !guarded(tree, calls_in(tree, body)[c].node as int, kind)
}

/// A call site of the body at `body` lets `kind` through from its callee.
pub open spec fn inherits(tree: SyntaxTree, fs: Seq<FunctionInfo>, body: int, kind: FailureKind) -> bool {
    inherits_upto(tree, fs, body, kind, calls_in(tree, body).len() as int)
}

/// The labels that the entry at `k` receives in one step, given the table `fs`.
pub open spec fn contribution(tree: SyntaxTree, fs: Seq<FunctionInfo>, k: int) -> Set<FailureKind> {
    Set::new(|kind: FailureKind| raises_locally(tree, fs[k].body as int, kind) || inherits(tree, fs, fs[k].body as int, kind))
}

/// `s` with the labels of `extra` added.
pub open spec fn with_labels(s: FailureSet, extra: Set<FailureKind>) -> FailureSet {
    FailureSet { key_not_found: s.key_not_found || extra.contains(FailureKind::KeyNotFound) }
}

/// The table after the entry at `k` has taken in its contribution.
pub open spec fn step(tree: SyntaxTree, fs: Seq<FunctionInfo>, k: int) -> Seq<FunctionInfo> {
    fs.update(k, FunctionInfo {
        name: fs[k].name,
        body: fs[k].body,
        may_raise: with_labels(fs[k].may_raise, contribution(tree, fs, k)),
        reported_locally: fs[k].reported_locally,
    })
}

/// The table after steps for the entries `0..n`, in order, each step seeing
/// the effect of those before it.
pub open spec fn pass_upto(tree: SyntaxTree, fs: Seq<FunctionInfo>, n: int) -> Seq<FunctionInfo>
    decreases n,
{
    if n <= 0 {
        fs
    } else {
        step(tree, pass_upto(tree, fs, n - 1), n - 1)
    }
}

/// One full pass of the propagator over the table.
pub open spec fn pass(tree: SyntaxTree, fs: Seq<FunctionInfo>) -> Seq<FunctionInfo> {
    pass_upto(tree, fs, fs.len() as int)
}

/// No entry has a label to take in.
pub open spec fn is_fixed_point(tree: SyntaxTree, fs: Seq<FunctionInfo>) -> bool {
    forall|k: int| 0 <= k < fs.len() ==> #[trigger] contribution(tree, fs, k).subset_of(fs[k].may_raise@)
}

/// Every label of `a` is in the same entry of `b`.
pub open spec fn grows(a: Seq<FunctionInfo>, b: Seq<FunctionInfo>) -> bool {
    &&& a.len() == b.len()
    &&& forall|k: int| 0 <= k < a.len() ==> (#[trigger] a[k].may_raise@).subset_of(b[k].may_raise@)
}

/// `a` and `b` differ in their labels at most.
pub open spec fn same_entries(a: Seq<FunctionInfo>, b: Seq<FunctionInfo>) -> bool {
    &&& a.len() == b.len()
    &&& forall|k: int| 0 <= k < a.len() ==> {
        &&& (#[trigger] a[k]).name == b[k].name
        &&& a[k].body == b[k].body
        &&& a[k].reported_locally == b[k].reported_locally
    }
}

/// The number of (entry, label) pairs not yet recorded.
pub open spec fn missing(fs: Seq<FunctionInfo>) -> nat
    decreases fs.len(),
{
    if fs.len() == 0 {
        0
    } else {
        missing(fs.drop_last()) + if fs.last().may_raise.key_not_found { 0nat } else { 1nat }
    }
}

proof fn lemma_missing_shrinks(a: Seq<FunctionInfo>, b: Seq<FunctionInfo>)
    requires
        grows(a, b),
    ensures
        missing(b) <= missing(a),
        (exists|k: int| 0 <= k < a.len() && #[trigger] a[k].may_raise != b[k].may_raise) ==> missing(b) < missing(a),
    decreases a.len(),
{
    if a.len() > 0 {
        let n = a.len() - 1;
        assert(grows(a.drop_last(), b.drop_last())) by {
            assert forall|k: int| 0 <= k < n implies (#[trigger] a.drop_last()[k].may_raise@).subset_of(b.drop_last()[k].may_raise@) by {
                assert(a.drop_last()[k] == a[k]);
                assert(b.drop_last()[k] == b[k]);
                assert(a[k].may_raise@.subset_of(b[k].may_raise@));
            }
        }
        lemma_missing_shrinks(a.drop_last(), b.drop_last());
        assert(a[n].may_raise@.subset_of(b[n].may_raise@));
        if a[n].may_raise.key_not_found {
            assert(a[n].may_raise@.contains(FailureKind::KeyNotFound));
            assert(b[n].may_raise@.contains(FailureKind::KeyNotFound));
        }
        if exists|k: int| 0 <= k < a.len() && #[trigger] a[k].may_raise != b[k].may_raise {
            let k = choose|k: int| 0 <= k < a.len() && #[trigger] a[k].may_raise != b[k].may_raise;
            if k < n {
                assert(a.drop_last()[k] == a[k]);
                assert(b.drop_last()[k] == b[k]);
            }
        }
    }
}

/// A step at `k` touches the entry at `k` only, and only adds labels.
proof fn lemma_step(tree: SyntaxTree, fs: Seq<FunctionInfo>, k: int)
    requires
        0 <= k < fs.len(),
    ensures
        grows(fs, step(tree, fs, k)),
        same_entries(fs, step(tree, fs, k)),
        forall|j: int| 0 <= j < fs.len() && j != k ==> #[trigger] step(tree, fs, k)[j] == fs[j],
        step(tree, fs, k)[k].may_raise@ == fs[k].may_raise@.union(contribution(tree, fs, k)),
{
    let t = step(tree, fs, k);
    assert(t[k].may_raise@ =~= fs[k].may_raise@.union(contribution(tree, fs, k)));
}

/// Labels only grow over any prefix of a pass.
pub proof fn lemma_pass_upto_grows(tree: SyntaxTree, fs: Seq<FunctionInfo>, n: int)
    requires
        0 <= n <= fs.len(),
    ensures
        grows(fs, pass_upto(tree, fs, n)),
        same_entries(fs, pass_upto(tree, fs, n)),
    decreases n,
{
    if n > 0 {
        lemma_pass_upto_grows(tree, fs, n - 1);
        let p = pass_upto(tree, fs, n - 1);
        lemma_step(tree, p, n - 1);
        assert forall|k: int| 0 <= k < fs.len() implies (#[trigger] fs[k].may_raise@).subset_of(pass_upto(tree, fs, n)[k].may_raise@) by {
            assert(fs[k].may_raise@.subset_of(p[k].may_raise@));
            assert(p[k].may_raise@.subset_of(step(tree, p, n - 1)[k].may_raise@));
        }
    }
}

/// Monotonicity: across a pass of the propagator, no function loses a label
/// of its may-raise set, and names, bodies and flags stay as they were.
pub proof fn lemma_pass_monotone(tree: SyntaxTree, fs: Seq<FunctionInfo>)
    ensures
        grows(fs, pass(tree, fs)),
        same_entries(fs, pass(tree, fs)),
{
    lemma_pass_upto_grows(tree, fs, fs.len() as int);
}

/// Idempotence at the fixed point: once no function has a label to take in,
/// a further pass changes nothing.
pub proof fn lemma_pass_at_fixed_point(tree: SyntaxTree, fs: Seq<FunctionInfo>)
    requires
        is_fixed_point(tree, fs),
    ensures
        pass(tree, fs) == fs,
{
    lemma_pass_upto_fixed(tree, fs, fs.len() as int);
}

proof fn lemma_pass_upto_fixed(tree: SyntaxTree, fs: Seq<FunctionInfo>, n: int)
    requires
        is_fixed_point(tree, fs),
        0 <= n <= fs.len(),
    ensures
        pass_upto(tree, fs, n) == fs,
    decreases n,
{
    if n > 0 {
        lemma_pass_upto_fixed(tree, fs, n - 1);
        let k = n - 1;
        assert(contribution(tree, fs, k).subset_of(fs[k].may_raise@));
        if fs[k].may_raise.key_not_found == false {
            assert(!fs[k].may_raise@.contains(FailureKind::KeyNotFound));
        }
        assert(with_labels(fs[k].may_raise, contribution(tree, fs, k)) == fs[k].may_raise);
        assert(step(tree, fs, k) =~= fs);
    }
}

/// `fp` is below every fixed point that keeps the entries of `fs0` and its
/// labels: it holds no label that the table does not force.
pub open spec fn is_least_above(tree: SyntaxTree, fs0: Seq<FunctionInfo>, fp: Seq<FunctionInfo>) -> bool {
    forall|x: Seq<FunctionInfo>| same_entries(fs0, x) && grows(fs0, x) && #[trigger] is_fixed_point(tree, x) ==> grows(fp, x)
}

/// More labels in the table never take a label out of a contribution.
proof fn lemma_contribution_monotone(tree: SyntaxTree, a: Seq<FunctionInfo>, b: Seq<FunctionInfo>, k: int)
    requires
        same_entries(a, b),
        grows(a, b),
        0 <= k < a.len(),
    ensures
        contribution(tree, a, k).subset_of(contribution(tree, b, k)),
{
    let body = a[k].body as int;
    assert(b[k].body == a[k].body);
    assert forall|kind: FailureKind| contribution(tree, a, k).contains(kind) implies contribution(tree, b, k).contains(kind) by {
        if inherits(tree, a, body, kind) {
            let n = calls_in(tree, body).len() as int;
            let (c, g) = choose|c: int, g: int|
                0 <= c < n && 0 <= g < a.len()
                && #[trigger] a[g].name@ == #[trigger] calls_in(tree, body)[c].name@
                && a[g].may_raise@.contains(kind)
                && !guarded(tree, calls_in(tree, body)[c].node as int, kind);
            assert(a[g].name == b[g].name);
            assert(a[g].may_raise@.subset_of(b[g].may_raise@));
            assert(b[g].name@ == calls_in(tree, body)[c].name@);
        }
    }
}

/// At a fixed point, a call outside any handler for `kind` to a function
/// that may raise `kind` makes the caller raise it too.
pub proof fn lemma_call_inherits(tree: SyntaxTree, fs: Seq<FunctionInfo>, caller: int, callee: int, c: int, kind: FailureKind)
    requires
        is_fixed_point(tree, fs),
        0 <= caller < fs.len(),
        0 <= callee < fs.len(),
        0 <= c < calls_in(tree, fs[caller].body as int).len(),
        calls_in(tree, fs[caller].body as int)[c].name@ == fs[callee].name@,
        !guarded(tree, calls_in(tree, fs[caller].body as int)[c].node as int, kind),
        fs[callee].may_raise@.contains(kind),
    ensures
        fs[caller].may_raise@.contains(kind),
{
    let body = fs[caller].body as int;
    assert(inherits(tree, fs, body, kind)) by {
        assert(fs[callee].name@ == calls_in(tree, body)[c].name@);
    }
    assert(contribution(tree, fs, caller).contains(kind));
    assert(contribution(tree, fs, caller).subset_of(fs[caller].may_raise@));
}

/// Transitive propagation: at a fixed point, with `c` holding an unguarded
/// access, `b` calling `c` and `a` calling `b`, both calls outside any
/// handler for a missing key, `b` and `a` may raise a missing key too.
pub proof fn lemma_transitive_propagation(
    tree: SyntaxTree,
    fs: Seq<FunctionInfo>,
    a: int,
    b: int,
    c: int,
    call_ab: int,
    call_bc: int,
)
    requires
        is_fixed_point(tree, fs),
        0 <= a < fs.len(),
        0 <= b < fs.len(),
        0 <= c < fs.len(),
        accesses_in(tree, fs[c].body as int).len() > 0,
        0 <= call_bc < calls_in(tree, fs[b].body as int).len(),
        calls_in(tree, fs[b].body as int)[call_bc].name@ == fs[c].name@,
        !guarded(tree, calls_in(tree, fs[b].body as int)[call_bc].node as int, FailureKind::KeyNotFound),
        0 <= call_ab < calls_in(tree, fs[a].body as int).len(),
        calls_in(tree, fs[a].body as int)[call_ab].name@ == fs[b].name@,
        !guarded(tree, calls_in(tree, fs[a].body as int)[call_ab].node as int, FailureKind::KeyNotFound),
    ensures
        fs[c].may_raise@.contains(FailureKind::KeyNotFound),
        fs[b].may_raise@.contains(FailureKind::KeyNotFound),
        fs[a].may_raise@.contains(FailureKind::KeyNotFound),
{
    let kind = FailureKind::KeyNotFound;
    assert(raises_locally(tree, fs[c].body as int, kind));
    assert(contribution(tree, fs, c).contains(kind));
    assert(contribution(tree, fs, c).subset_of(fs[c].may_raise@));
    lemma_call_inherits(tree, fs, b, c, call_bc, kind);
    lemma_call_inherits(tree, fs, a, b, call_ab, kind);
}

/// The labels of `s` that a handler around node `node` does not catch.
pub(crate) fn uncaught_labels(tree: &SyntaxTree, s: &FailureSet, node: usize) -> (r: FailureSet)
    requires
        tree.wf(),
        node < tree.len(),
    ensures
        r@ == s@.filter(|kind: FailureKind| !guarded(*tree, node as int, kind)),
{
    let mut r = FailureSet::empty();
    if s.contains(FailureKind::KeyNotFound) && !is_guarded(tree, node, FailureKind::KeyNotFound) {
        r.insert(FailureKind::KeyNotFound);
    }
    assert(r@ =~= s@.filter(|kind: FailureKind| !guarded(*tree, node as int, kind)));
    r
}

impl FunctionIndex {
    /// The labels that the entry at `k` receives from its own unguarded
    /// accesses and from the entries it calls outside a matching handler.
    pub fn contribution_of(&self, tree: &SyntaxTree, k: usize) -> (r: FailureSet)
        requires
            tree.wf(),
            self.wf(*tree),
            k < self.functions@.len(),
        ensures
            r@ == contribution(*tree, self.functions@, k as int),
    {
        let ghost fs = self.functions@;
        let body = self.functions[k].body;
        let ghost b = body as int;
        let accesses = find_unguarded_accesses(tree, body);
        let mut r = FailureSet::empty();
        if accesses.len() > 0 {
            r.insert(FailureKind::KeyNotFound);
        }
        let calls = collect_calls(tree, body);
        proof {
            crate::sites::lemma_calls_between(*tree, b, tree.nodes@[b].end as int);
            assert(tree.node_wf(b));
        }
        let mut c: usize = 0;
        while c < calls.len()
            invariant
                tree.wf(),
                self.wf(*tree),
                fs == self.functions@,
                b < tree.len(),
                calls@ == calls_in(*tree, b),
                forall|i: int| 0 <= i < calls@.len() ==> #[trigger] calls@[i].node < tree.len(),
                c <= calls@.len(),
                forall|kind: FailureKind| #[trigger] r@.contains(kind) == (raises_locally(*tree, b, kind)
                    || inherits_upto(*tree, fs, b, kind, c as int)),
            decreases calls@.len() - c,
        {
            let ghost r0 = r@;
            match self.find_function(&calls[c].name) {
                Some(g) => {
                    let extra = uncaught_labels(tree, &self.functions[g].may_raise, calls[c].node);
                    r = r.union(&extra);
                    proof {
                        assert forall|kind: FailureKind| #[trigger] r@.contains(kind) == (raises_locally(*tree, b, kind)
                            || inherits_upto(*tree, fs, b, kind, c + 1)) by {
                            if inherits_upto(*tree, fs, b, kind, c + 1) && !inherits_upto(*tree, fs, b, kind, c as int) {
                                let (c1, g1) = choose|c1: int, g1: int|
                                    0 <= c1 < c + 1 && 0 <= g1 < fs.len()
                                    && #[trigger] fs[g1].name@ == #[trigger] calls_in(*tree, b)[c1].name@
                                    && fs[g1].may_raise@.contains(kind)
                                    && !guarded(*tree, calls_in(*tree, b)[c1].node as int, kind);
                                assert(c1 == c);
                                assert(g1 == g);
                            }
                            if extra@.contains(kind) {
                                assert(fs[g as int].name@ == calls_in(*tree, b)[c as int].name@);
                            }
                        }
                    }
                },
                None => {
                    proof {
                        assert forall|kind: FailureKind| #[trigger] r@.contains(kind) == (raises_locally(*tree, b, kind)
                            || inherits_upto(*tree, fs, b, kind, c + 1)) by {
                            if inherits_upto(*tree, fs, b, kind, c + 1) && !inherits_upto(*tree, fs, b, kind, c as int) {
                                let (c1, g1) = choose|c1: int, g1: int|
                                    0 <= c1 < c + 1 && 0 <= g1 < fs.len()
                                    && #[trigger] fs[g1].name@ == #[trigger] calls_in(*tree, b)[c1].name@
                                    && fs[g1].may_raise@.contains(kind)
                                    && !guarded(*tree, calls_in(*tree, b)[c1].node as int, kind);
                                assert(c1 == c);
                            }
                        }
                    }
                },
            }
            c = c + 1;
        }
        assert(r@ =~= contribution(*tree, fs, k as int));
        r
    }

    /// One pass of the propagator: each entry in turn takes in its
    /// contribution, computed from the table as the earlier steps left it.
    /// Returns whether any label was added.
    pub fn run_pass(&mut self, tree: &SyntaxTree) -> (changed: bool)
        requires
            tree.wf(),
            old(self).wf(*tree),
        ensures
            final(self).wf(*tree),
            final(self).functions@ == pass(*tree, old(self).functions@),
            changed ==> missing(final(self).functions@) < missing(old(self).functions@),
            !changed ==> final(self).functions@ == old(self).functions@ && is_fixed_point(*tree, old(self).functions@),
            forall|x: Seq<FunctionInfo>| same_entries(old(self).functions@, x) && grows(old(self).functions@, x)
                && #[trigger] is_fixed_point(*tree, x) ==> grows(final(self).functions@, x),
    {
        let ghost fs0 = self.functions@;
        let n = self.functions.len();
        let mut changed = false;
        let mut k: usize = 0;
        proof {
            lemma_pass_upto_grows(*tree, fs0, 0);
        }
        while k < n
            invariant
                tree.wf(),
                n == fs0.len(),
                k <= n,
                self.wf(*tree),
                self.functions@ == pass_upto(*tree, fs0, k as int),
                grows(fs0, self.functions@),
                same_entries(fs0, self.functions@),
                forall|j: int| k <= j < n ==> #[trigger] self.functions@[j] == fs0[j],
                changed ==> exists|j: int| 0 <= j < n && #[trigger] fs0[j].may_raise != self.functions@[j].may_raise,
                !changed ==> self.functions@ == fs0 && forall|j: int| 0 <= j < k ==>
                    #[trigger] contribution(*tree, fs0, j).subset_of(fs0[j].may_raise@),
                forall|x: Seq<FunctionInfo>| same_entries(fs0, x) && grows(fs0, x)
                    && #[trigger] is_fixed_point(*tree, x) ==> grows(self.functions@, x),
            decreases n - k,
        {
            let ghost cur = self.functions@;
            let add = self.contribution_of(tree, k);
            proof {
                lemma_step(*tree, cur, k as int);
                lemma_pass_upto_grows(*tree, fs0, k + 1);
                assert forall|x: Seq<FunctionInfo>| same_entries(fs0, x) && grows(fs0, x)
                    && #[trigger] is_fixed_point(*tree, x) implies grows(step(*tree, cur, k as int), x) by {
                    assert(grows(cur, x));
                    assert(same_entries(cur, x)) by {
                        assert forall|j: int| 0 <= j < cur.len() implies {
                            &&& (#[trigger] cur[j]).name == x[j].name
                            &&& cur[j].body == x[j].body
                            &&& cur[j].reported_locally == x[j].reported_locally
                        } by {
                            assert(cur[j].name == fs0[j].name);
                            assert(cur[j].body == fs0[j].body);
                            assert(cur[j].reported_locally == fs0[j].reported_locally);
                        }
                    }
                    lemma_contribution_monotone(*tree, cur, x, k as int);
                    assert(contribution(*tree, x, k as int).subset_of(x[k as int].may_raise@));
                    let t = step(*tree, cur, k as int);
                    assert forall|j: int| 0 <= j < cur.len() implies (#[trigger] t[j].may_raise@).subset_of(x[j].may_raise@) by {
                        if j != k {
                            assert(t[j] == cur[j]);
                        }
                    }
                }
            }
            if !add.is_subset_of(&self.functions[k].may_raise) {
                let info = FunctionInfo {
                    name: self.functions[k].name.clone(),
                    body: self.functions[k].body,
                    may_raise: self.functions[k].may_raise.union(&add),
                    reported_locally: self.functions[k].reported_locally,
                };
                self.functions.set(k, info);
                proof {
                    assert(info.may_raise == with_labels(cur[k as int].may_raise, contribution(*tree, cur, k as int)));
                    assert(self.functions@ =~= step(*tree, cur, k as int));
                    assert(fs0[k as int].may_raise != self.functions@[k as int].may_raise) by {
                        if fs0[k as int].may_raise == self.functions@[k as int].may_raise {
                            assert(info.may_raise@ == cur[k as int].may_raise@.union(add@));
                        }
                    }
                    assert forall|j: int| 0 <= j < self.functions@.len() implies #[trigger] self.functions@[j].body < tree.len() by {
                        assert(same_entries(fs0, self.functions@));
                        assert(self.functions@[j].body == fs0[j].body);
                    }
                    assert forall|a: int, b: int| 0 <= a < self.functions@.len() && 0 <= b < self.functions@.len() && a != b
                        implies #[trigger] self.functions@[a].name@ != #[trigger] self.functions@[b].name@ by {
                        assert(self.functions@[a].name == fs0[a].name);
                        assert(self.functions@[b].name == fs0[b].name);
                    }
                }
                changed = true;
            } else {
                proof {
                    if cur[k as int].may_raise.key_not_found == false {
                        assert(!cur[k as int].may_raise@.contains(FailureKind::KeyNotFound));
                    }
                    assert(with_labels(cur[k as int].may_raise, contribution(*tree, cur, k as int)) == cur[k as int].may_raise);
                    assert(step(*tree, cur, k as int) =~= cur);
                }
            }
            k = k + 1;
        }
        proof {
            lemma_missing_shrinks(fs0, self.functions@);
        }
        changed
    }

    /// Runs passes until one adds no label. Each function then holds every
    /// label that its own accesses or its unguarded calls give it; labels
    /// already present stay.
    pub fn propagate(&mut self, tree: &SyntaxTree)
        requires
            tree.wf(),
            old(self).wf(*tree),
        ensures
            final(self).wf(*tree),
            is_fixed_point(*tree, final(self).functions@),
            grows(old(self).functions@, final(self).functions@),
            same_entries(old(self).functions@, final(self).functions@),
            is_least_above(*tree, old(self).functions@, final(self).functions@),
    {
        let ghost fs0 = self.functions@;
        proof {
            lemma_pass_upto_grows(*tree, fs0, 0);
        }
        loop
            invariant
                tree.wf(),
                self.wf(*tree),
                grows(fs0, self.functions@),
                same_entries(fs0, self.functions@),
                is_least_above(*tree, fs0, self.functions@),
            ensures
                is_fixed_point(*tree, self.functions@),
            decreases missing(self.functions@),
        {
            let ghost before = self.functions@;
            let changed = self.run_pass(tree);
            proof {
                assert forall|x: Seq<FunctionInfo>| same_entries(fs0, x) && grows(fs0, x)
                    && #[trigger] is_fixed_point(*tree, x) implies grows(self.functions@, x) by {
                    assert(grows(before, x));
                    assert(same_entries(before, x)) by {
                        assert forall|j: int| 0 <= j < before.len() implies {
                            &&& (#[trigger] before[j]).name == x[j].name
                            &&& before[j].body == x[j].body
                            &&& before[j].reported_locally == x[j].reported_locally
                        } by {
                            assert(before[j].name == fs0[j].name);
                            assert(before[j].body == fs0[j].body);
                            assert(before[j].reported_locally == fs0[j].reported_locally);
                        }
                    }
                }
                lemma_pass_monotone(*tree, before);
                assert forall|k: int| 0 <= k < fs0.len() implies (#[trigger] fs0[k].may_raise@).subset_of(self.functions@[k].may_raise@) by {
                    assert(fs0[k].may_raise@.subset_of(before[k].may_raise@));
                    assert(before[k].may_raise@.subset_of(self.functions@[k].may_raise@));
                }
            }
            if !changed {
                break;
            }
        }
    }
}

} // verus!
