use vstd::prelude::*;

use crate::guard::{
    catches_by_name, guarded, handler_catches, lemma_enclosing_handler_guards, lemma_no_matching_handler, FailureKind,
};
use crate::index::{table_wf, FailureSet, FunctionIndex, FunctionInfo, MODULE_NAME};
use crate::propagate::uncaught_labels;
use crate::sites::{
    accesses_in, calls_in, collect_calls, find_unguarded_accesses, is_unguarded_access, lemma_accesses_between, CallSite,
};
use crate::tree::{NodeKind, SyntaxTree};

verus! {

/// A warning about one place in the analysed file.
#[derive(Clone, Debug)]
pub enum Diagnostic {
    /// An indexing access in `function` that no handler guards.
    UnguardedAccess { line: usize, function: String },
    /// A call in `caller` to `callee`, which may raise `labels`, outside any
    /// handler for them.
    UnhandledCall { line: usize, labels: FailureSet, callee: String, caller: String },
}

/// The 1-based line of node `i`.
pub open spec fn line_of(tree: SyntaxTree, i: int) -> usize {
    tree.nodes@[i].spec_line() as usize
}

/// The warnings for the unguarded accesses of `f`; none for module-level code.
pub open spec fn local_warnings(tree: SyntaxTree, f: FunctionInfo) -> Seq<Diagnostic> {
    if f.name@ == MODULE_NAME@ {
        Seq::empty()
    } else {
        accesses_in(tree, f.body as int).map_values(
            |a: usize| Diagnostic::UnguardedAccess { line: line_of(tree, a as int), function: f.name },
        )
    }
}

/// The local warnings of the entries `0..n`, in order.
pub open spec fn local_report(tree: SyntaxTree, fs: Seq<FunctionInfo>, n: int) -> Seq<Diagnostic>
    decreases n,
{
    if n <= 0 {
        Seq::empty()
    } else {
        local_report(tree, fs, n - 1) + local_warnings(tree, fs[n - 1])
    }
}

/// The table once each function with an unguarded access of its own is
/// marked as reported.
pub open spec fn flagged(tree: SyntaxTree, fs: Seq<FunctionInfo>) -> Seq<FunctionInfo> {
    fs.map_values(|f: FunctionInfo| FunctionInfo {
        name: f.name,
        body: f.body,
        may_raise: f.may_raise,
        reported_locally: f.reported_locally || accesses_in(tree, f.body as int).len() > 0,
    })
}

/// The entry at `g` is named `name`.
pub open spec fn resolves(fs: Seq<FunctionInfo>, name: Seq<char>, g: int) -> bool {
    0 <= g < fs.len() && fs[g].name@ == name
}

/// The warning that call site `c` in `caller` earns, before deduplication:
/// its callee is known, may raise, no handler around the call catches any of
/// its labels, and the callee's own access was not reported already.
pub open spec fn call_warning(tree: SyntaxTree, fs: Seq<FunctionInfo>, caller: FunctionInfo, c: CallSite) -> Option<Diagnostic> {
    if exists|g: int| resolves(fs, c.name@, g) {
        let g = choose|g: int| resolves(fs, c.name@, g);
        let labels = fs[g].may_raise;
        if labels@ != Set::<FailureKind>::empty()
            && (forall|kind: FailureKind| labels@.contains(kind) ==> !guarded(tree, c.node as int, kind))
            && !fs[g].reported_locally {
            Some(Diagnostic::UnhandledCall { line: line_of(tree, c.node as int), labels, callee: c.name, caller: caller.name })
        } else {
            None
        }
    } else {
        None
    }
}

/// The call sites of the entries `0..n`, each with its caller's position.
pub open spec fn call_candidates(tree: SyntaxTree, fs: Seq<FunctionInfo>, n: int) -> Seq<(usize, CallSite)>
    decreases n,
{
    if n <= 0 {
        Seq::empty()
    } else {
        call_candidates(tree, fs, n - 1) + calls_in(tree, fs[n - 1].body as int).map_values(
            |c: CallSite| ((n - 1) as usize, c),
        )
    }
}

/// The keys `(line, callee)` already used and the call warnings emitted after
/// the first `m` candidates: a warning whose key was used is dropped.
pub open spec fn emitted(tree: SyntaxTree, fs: Seq<FunctionInfo>, cands: Seq<(usize, CallSite)>, m: int) -> (Seq<(usize, Seq<char>)>, Seq<Diagnostic>)
    decreases m,
{
    if m <= 0 {
        (Seq::empty(), Seq::empty())
    } else {
        let (keys, out) = emitted(tree, fs, cands, m - 1);
        let (k, c) = cands[m - 1];
        match call_warning(tree, fs, fs[k as int], c) {
            Some(d) => {
                let key = (line_of(tree, c.node as int), c.name@);
                if keys.contains(key) {
                    (keys, out)
                } else {
                    (keys.push(key), out.push(d))
                }
            },
            None => (keys, out),
        }
    }
}

/// The call warnings of the table `fs`, deduplicated by line and callee.
pub open spec fn call_report(tree: SyntaxTree, fs: Seq<FunctionInfo>) -> Seq<Diagnostic> {
    let cands = call_candidates(tree, fs, fs.len() as int);
    emitted(tree, fs, cands, cands.len() as int).1
}

/// Every warning of the table `fs`: the local ones, then those at call sites,
/// judged once every local report has been marked.
pub open spec fn diagnostics(tree: SyntaxTree, fs: Seq<FunctionInfo>) -> Seq<Diagnostic> {
    local_report(tree, fs, fs.len() as int) + call_report(tree, flagged(tree, fs))
}

/// An indexing access inside a `try` statement with a handler for a missing
/// key (a catch-all, `KeyError` or `Exception`) is never among the accesses
/// that the local report warns of.
pub proof fn lemma_handled_access_not_reported(tree: SyntaxTree, body: int, a: int, t: int, h: int)
    requires
        tree.wf(),
        0 <= body < tree.len(),
        body <= a < tree.nodes@[body].end,
        t == a || tree.is_ancestor(t, a),
        tree.nodes@[t].kind == NodeKind::TryStatement,
        tree.is_child(t, h),
        handler_catches(tree, h, FailureKind::KeyNotFound),
    ensures
        !accesses_in(tree, body).contains(a as usize),
{
    assert(tree.node_wf(body));
    lemma_enclosing_handler_guards(tree, a, t, h, FailureKind::KeyNotFound);
    lemma_accesses_between(tree, body, tree.nodes@[body].end as int);
    if accesses_in(tree, body).contains(a as usize) {
        let k = choose|k: int| 0 <= k < accesses_in(tree, body).len() && accesses_in(tree, body)[k] == a as usize;
        assert(is_unguarded_access(tree, accesses_in(tree, body)[k] as int));
    }
}

/// An indexing access whose enclosing `try` statements only have handlers
/// for other types (such as `ValueError`) is among the accesses that the
/// local report warns of.
pub proof fn lemma_unhandled_access_reported(tree: SyntaxTree, body: int, a: int)
    requires
        tree.wf(),
        0 <= body < tree.len(),
        body <= a < tree.nodes@[body].end,
        tree.nodes@[a].kind == NodeKind::Subscript,
        forall|t: int, h: int|
            (t == a || tree.is_ancestor(t, a)) && tree.nodes@[t].kind == NodeKind::TryStatement
            && #[trigger] tree.is_child(t, h) && tree.nodes@[h].kind == NodeKind::ExceptClause
            ==> match tree.key_text(h) {
                Some(ty) => !catches_by_name(FailureKind::KeyNotFound, ty),
                None => false,
            },
    ensures
        accesses_in(tree, body).contains(a as usize),
{
    assert(tree.node_wf(body));
    lemma_no_matching_handler(tree, a, FailureKind::KeyNotFound);
    lemma_accesses_between(tree, body, tree.nodes@[body].end as int);
    assert(is_unguarded_access(tree, a));
}

/// Module-level code gets no local warning, however many of its accesses
/// are unguarded.
pub proof fn lemma_module_not_reported_locally(tree: SyntaxTree, f: FunctionInfo)
    requires
        f.name@ == MODULE_NAME@,
    ensures
        local_warnings(tree, f) == Seq::<Diagnostic>::empty(),
{
}

/// The call-site rule: a call from any caller, module-level code included,
/// to a known function that may raise, outside any handler for its labels,
/// earns a warning unless the callee's own access was reported.
pub proof fn lemma_call_rule(tree: SyntaxTree, fs: Seq<FunctionInfo>, caller: FunctionInfo, c: CallSite, g: int)
    requires
        crate::index::names_unique(fs),
        resolves(fs, c.name@, g),
        fs[g].may_raise@ != Set::<FailureKind>::empty(),
        forall|kind: FailureKind| fs[g].may_raise@.contains(kind) ==> !guarded(tree, c.node as int, kind),
    ensures
        call_warning(tree, fs, caller, c) == if fs[g].reported_locally {
            None
        } else {
            Some(Diagnostic::UnhandledCall {
                line: line_of(tree, c.node as int),
                labels: fs[g].may_raise,
                callee: c.name,
                caller: caller.name,
            })
        },
{
    let g0 = choose|g1: int| resolves(fs, c.name@, g1);
    assert(g0 == g);
}

/// `d` is a call warning whose callee's own access was not reported.
pub open spec fn spares_reported(fs: Seq<FunctionInfo>, d: Diagnostic) -> bool {
    match d {
        Diagnostic::UnhandledCall { callee, .. } => forall|g: int| resolves(fs, callee@, g) ==> !fs[g].reported_locally,
        Diagnostic::UnguardedAccess { .. } => false,
    }
}

/// A call warning never names a callee whose own access was reported.
proof fn lemma_emitted_spares_reported(tree: SyntaxTree, fs: Seq<FunctionInfo>, cands: Seq<(usize, CallSite)>, m: int)
    requires
        crate::index::names_unique(fs),
        0 <= m <= cands.len(),
        forall|i: int| 0 <= i < cands.len() ==> (#[trigger] cands[i]).0 < fs.len(),
    ensures
        forall|i: int| 0 <= i < emitted(tree, fs, cands, m).1.len() ==> spares_reported(fs, #[trigger] emitted(tree, fs, cands, m).1[i]),
    decreases m,
{
    if m > 0 {
        lemma_emitted_spares_reported(tree, fs, cands, m - 1);
        let (keys, out) = emitted(tree, fs, cands, m - 1);
        let (k, c) = cands[m - 1];
        assert(k < fs.len());
        match call_warning(tree, fs, fs[k as int], c) {
            Some(d) => {
                let g0 = choose|g: int| resolves(fs, c.name@, g);
                assert forall|g: int| resolves(fs, c.name@, g) implies !fs[g].reported_locally by {
                    assert(g == g0);
                }
                if !keys.contains((line_of(tree, c.node as int), c.name@)) {
                    assert forall|i: int| 0 <= i < out.push(d).len() implies spares_reported(fs, #[trigger] out.push(d)[i]) by {
                        if i < out.len() {
                            assert(out.push(d)[i] == out[i]);
                        }
                    }
                }
            },
            None => {},
        }
    }
}

proof fn lemma_candidate_callers(tree: SyntaxTree, fs: Seq<FunctionInfo>, n: int)
    requires
        0 <= n <= fs.len(),
    ensures
        forall|i: int| 0 <= i < call_candidates(tree, fs, n).len() ==> (#[trigger] call_candidates(tree, fs, n)[i]).0 < n,
    decreases n,
{
    if n > 0 {
        lemma_candidate_callers(tree, fs, n - 1);
        let prev = call_candidates(tree, fs, n - 1);
        let cur = call_candidates(tree, fs, n);
        assert forall|i: int| 0 <= i < cur.len() implies (#[trigger] cur[i]).0 < n by {
            if i < prev.len() {
                assert(cur[i] == prev[i]);
            }
        }
    }
}

/// Call-site suppression: no call warning of the table `fs` names a callee
/// whose own unguarded access was reported, whatever guards the call.
pub proof fn lemma_reported_callee_suppressed(tree: SyntaxTree, fs: Seq<FunctionInfo>)
    requires
        crate::index::names_unique(fs),
    ensures
        forall|i: int| 0 <= i < call_report(tree, fs).len() ==> spares_reported(fs, #[trigger] call_report(tree, fs)[i]),
{
    let cands = call_candidates(tree, fs, fs.len() as int);
    lemma_candidate_callers(tree, fs, fs.len() as int);
    lemma_emitted_spares_reported(tree, fs, cands, cands.len() as int);
}

impl FunctionIndex {
    /// Warns of each unguarded access of each function but module-level
    /// code, and marks every function with such an access as reported.
    pub fn report_local(&mut self, tree: &SyntaxTree) -> (r: Vec<Diagnostic>)
        requires
            tree.wf(),
            old(self).wf(*tree),
        ensures
            final(self).wf(*tree),
            final(self).functions@ == flagged(*tree, old(self).functions@),
            r@ == local_report(*tree, old(self).functions@, old(self).functions@.len() as int),
    {
        let ghost fs0 = self.functions@;
        let n = self.functions.len();
        let module_name = String::from_str(MODULE_NAME);
        let mut out: Vec<Diagnostic> = Vec::new();
        let mut k: usize = 0;
        while k < n
            invariant
                tree.wf(),
                table_wf(*tree, fs0),
                n == fs0.len(),
                n == self.functions@.len(),
                k <= n,
                module_name@ == MODULE_NAME@,
                forall|j: int| 0 <= j < k ==> #[trigger] self.functions@[j] == flagged(*tree, fs0)[j],
                forall|j: int| k <= j < n ==> #[trigger] self.functions@[j] == fs0[j],
                out@ == local_report(*tree, fs0, k as int),
            decreases n - k,
        {
            let body = self.functions[k].body;
            let accesses = find_unguarded_accesses(tree, body);
            let ghost f = fs0[k as int];
            let ghost base = out@;
            if self.functions[k].name != module_name {
                let mut j: usize = 0;
                while j < accesses.len()
                    invariant
                        tree.wf(),
                        table_wf(*tree, fs0),
                        k < n,
                        n == self.functions@.len(),
                        self.functions@[k as int] == f,
                        f.body < tree.len(),
                        accesses@ == accesses_in(*tree, f.body as int),
                        j <= accesses@.len(),
                        out@ == base + accesses@.take(j as int).map_values(
                            |a: usize| Diagnostic::UnguardedAccess { line: line_of(*tree, a as int), function: f.name },
                        ),
                    decreases accesses@.len() - j,
                {
                    let a = accesses[j];
                    proof {
                        crate::sites::lemma_accesses_between(*tree, f.body as int, tree.nodes@[f.body as int].end as int);
                        assert(tree.node_wf(f.body as int));
                        assert(accesses@[j as int] < tree.len());
                        assert(tree.node_wf(a as int));
                    }
                    let d = Diagnostic::UnguardedAccess { line: tree.nodes[a].row + 1, function: self.functions[k].name.clone() };
                    out.push(d);
                    proof {
                        assert(accesses@.take(j + 1).map_values(
                            |a: usize| Diagnostic::UnguardedAccess { line: line_of(*tree, a as int), function: f.name },
                        ) =~= accesses@.take(j as int).map_values(
                            |a: usize| Diagnostic::UnguardedAccess { line: line_of(*tree, a as int), function: f.name },
                        ).push(d));
                    }
                    j = j + 1;
                }
                assert(accesses@.take(accesses@.len() as int) =~= accesses@);
            }
            assert(out@ =~= local_report(*tree, fs0, k + 1));
            if accesses.len() > 0 {
                let info = FunctionInfo {
                    name: self.functions[k].name.clone(),
                    body,
                    may_raise: self.functions[k].may_raise,
                    reported_locally: true,
                };
                self.functions.set(k, info);
            }
            k = k + 1;
        }
        assert(self.functions@ =~= flagged(*tree, fs0));
        out
    }

    /// The call sites of every entry, in table order, each with its caller.
    fn candidates(&self, tree: &SyntaxTree) -> (r: Vec<(usize, CallSite)>)
        requires
            tree.wf(),
            self.wf(*tree),
        ensures
            r@ == call_candidates(*tree, self.functions@, self.functions@.len() as int),
            forall|i: int| 0 <= i < r@.len() ==> (#[trigger] r@[i]).0 < self.functions@.len() && r@[i].1.node < tree.len(),
    {
        let ghost fs = self.functions@;
        let n = self.functions.len();
        let mut r: Vec<(usize, CallSite)> = Vec::new();
        let mut k: usize = 0;
        while k < n
            invariant
                tree.wf(),
                self.wf(*tree),
                fs == self.functions@,
                n == fs.len(),
                k <= n,
                r@ == call_candidates(*tree, fs, k as int),
                forall|i: int| 0 <= i < r@.len() ==> (#[trigger] r@[i]).0 < k && r@[i].1.node < tree.len(),
            decreases n - k,
        {
            let calls = collect_calls(tree, self.functions[k].body);
            let ghost body = fs[k as int].body as int;
            let ghost base = r@;
            proof {
                crate::sites::lemma_calls_between(*tree, body, tree.nodes@[body].end as int);
                assert(tree.node_wf(body));
            }
            let mut j: usize = 0;
            while j < calls.len()
                invariant
                    tree.wf(),
                    k < n,
                    body < tree.len(),
                    calls@ == calls_in(*tree, body),
                    forall|i: int| 0 <= i < calls@.len() ==> (#[trigger] calls@[i]).node < tree.len(),
                    forall|i: int| 0 <= i < base.len() ==> (#[trigger] base[i]).0 < k && base[i].1.node < tree.len(),
                    j <= calls@.len(),
                    r@ == base + calls@.take(j as int).map_values(|c: CallSite| (k as usize, c)),
                decreases calls@.len() - j,
            {
                let site = CallSite { name: calls[j].name.clone(), node: calls[j].node };
                r.push((k, site));
                proof {
                    assert(calls@.take(j + 1).map_values(|c: CallSite| (k as usize, c))
                        =~= calls@.take(j as int).map_values(|c: CallSite| (k as usize, c)).push((k, site)));
                }
                j = j + 1;
            }
            proof {
                assert(calls@.take(calls@.len() as int) =~= calls@);
                assert forall|i: int| 0 <= i < r@.len() implies (#[trigger] r@[i]).0 < k + 1 && r@[i].1.node < tree.len() by {
                    if i >= base.len() {
                        assert(r@[i] == (k as usize, calls@[i - base.len()]));
                    }
                }
            }
            k = k + 1;
        }
        r
    }

    /// Warns of each call to a function that may raise, outside any handler
    /// for what it raises, unless the callee's own access was reported; a
    /// second warning for the same line and callee is dropped.
    pub fn report_calls(&self, tree: &SyntaxTree) -> (r: Vec<Diagnostic>)
        requires
            tree.wf(),
            self.wf(*tree),
        ensures
            r@ == call_report(*tree, self.functions@),
            forall|i: int| 0 <= i < r@.len() ==> spares_reported(self.functions@, #[trigger] r@[i]),
    {
        let ghost fs = self.functions@;
        let cands = self.candidates(tree);
        let mut keys: Vec<(usize, String)> = Vec::new();
        let mut out: Vec<Diagnostic> = Vec::new();
        let mut m: usize = 0;
        while m < cands.len()
            invariant
                tree.wf(),
                self.wf(*tree),
                fs == self.functions@,
                cands@ == call_candidates(*tree, fs, fs.len() as int),
                forall|i: int| 0 <= i < cands@.len() ==> (#[trigger] cands@[i]).0 < fs.len() && cands@[i].1.node < tree.len(),
                m <= cands@.len(),
                keys@.map_values(|p: (usize, String)| (p.0, p.1@)) == emitted(*tree, fs, cands@, m as int).0,
                out@ == emitted(*tree, fs, cands@, m as int).1,
            decreases cands@.len() - m,
        {
            let k = cands[m].0;
            let c = &cands[m].1;
            let ghost key_view = keys@.map_values(|p: (usize, String)| (p.0, p.1@));
            proof {
                assert(tree.node_wf(c.node as int));
            }
            match self.find_function(&c.name) {
                Some(g) => {
                    let labels = self.functions[g].may_raise;
                    let uncaught = uncaught_labels(tree, &labels, c.node);
                    if !labels.is_empty() && labels.is_subset_of(&uncaught) && !self.functions[g].reported_locally {
                        let line = tree.nodes[c.node].row + 1;
                        let mut seen = false;
                        let mut i: usize = 0;
                        while i < keys.len()
                            invariant
                                i <= keys@.len(),
                                key_view == keys@.map_values(|p: (usize, String)| (p.0, p.1@)),
                                seen == exists|q: int| 0 <= q < i && key_view[q] == (line, c.name@),
                            decreases keys@.len() - i,
                        {
                            if keys[i].0 == line && keys[i].1 == c.name {
                                seen = true;
                            }
                            proof {
                                assert(key_view[i as int] == (keys@[i as int].0, keys@[i as int].1@));
                            }
                            i = i + 1;
                        }
                        proof {
                            assert(resolves(fs, c.name@, g as int));
                            let g0 = choose|g1: int| resolves(fs, c.name@, g1);
                            assert(g0 == g);
                            assert forall|kind: FailureKind| labels@.contains(kind) implies !guarded(*tree, c.node as int, kind) by {
                                assert(uncaught@.contains(kind));
                            }
                            assert(line == line_of(*tree, c.node as int));
                            if seen {
                                let q = choose|q: int| 0 <= q < keys@.len() && key_view[q] == (line, c.name@);
                                assert(key_view.contains((line, c.name@)));
                            } else {
                                assert(!key_view.contains((line, c.name@)));
                            }
                        }
                        if !seen {
                            let d = Diagnostic::UnhandledCall {
                                line,
                                labels,
                                callee: c.name.clone(),
                                caller: self.functions[k].name.clone(),
                            };
                            keys.push((line, c.name.clone()));
                            out.push(d);
                            proof {
                                assert(keys@.map_values(|p: (usize, String)| (p.0, p.1@)) =~= key_view.push((line, c.name@)));
                            }
                        }
                    } else {
                        proof {
                            assert(resolves(fs, c.name@, g as int));
                            let g0 = choose|g1: int| resolves(fs, c.name@, g1);
                            assert(g0 == g);
                            if labels@ != Set::<FailureKind>::empty() && !labels@.subset_of(uncaught@) {
                                let kind = choose|kind: FailureKind| labels@.contains(kind) && !uncaught@.contains(kind);
                                assert(guarded(*tree, c.node as int, kind));
                            }
                        }
                    }
                },
                None => {
                    assert(!exists|g1: int| resolves(fs, c.name@, g1));
                },
            }
            m = m + 1;
        }
        proof {
            lemma_emitted_spares_reported(*tree, fs, cands@, cands@.len() as int);
        }
        out
    }
}

} // verus!
