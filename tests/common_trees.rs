use keyerror_lint::{
    analyze, collect_calls, find_unguarded_accesses, is_guarded, AnalysisError, Diagnostic, FailureKind, FailureSet,
    FunctionIndex, NodeKind, SyntaxNode, SyntaxTree, MODULE_NAME,
};

struct Builder {
    nodes: Vec<SyntaxNode>,
}

impl Builder {
    fn new() -> Builder {
        let mut b = Builder { nodes: Vec::new() };
        b.open(None, NodeKind::Other, 0, "module");
        b
    }

    fn open(&mut self, parent: Option<usize>, kind: NodeKind, row: usize, text: &str) -> usize {
        self.nodes.push(SyntaxNode { kind, parent, end: 0, key_child: None, row, text: text.to_string() });
        self.nodes.len() - 1
    }

    fn close(&mut self, i: usize) {
        self.nodes[i].end = self.nodes.len();
    }

    fn leaf(&mut self, parent: usize, kind: NodeKind, row: usize, text: &str) -> usize {
        let i = self.open(Some(parent), kind, row, text);
        self.close(i);
        i
    }

    fn key_leaf(&mut self, owner: usize, row: usize, text: &str) {
        let k = self.leaf(owner, NodeKind::Other, row, text);
        self.nodes[owner].key_child = Some(k);
    }

    /// Opens a function definition; close it after its body.
    fn func(&mut self, parent: usize, name: &str, row: usize) -> usize {
        let f = self.open(Some(parent), NodeKind::FunctionDefinition, row, name);
        self.key_leaf(f, row, name);
        f
    }

    fn call(&mut self, parent: usize, callee: &str, row: usize) -> usize {
        let c = self.open(Some(parent), NodeKind::Call, row, callee);
        self.key_leaf(c, row, callee);
        self.close(c);
        c
    }

    fn access(&mut self, parent: usize, row: usize) -> usize {
        self.leaf(parent, NodeKind::Subscript, row, "d[x]")
    }

    /// Opens a `try` statement; close it after its handlers.
    fn try_stmt(&mut self, parent: usize, row: usize) -> usize {
        self.open(Some(parent), NodeKind::TryStatement, row, "try")
    }

    fn handler(&mut self, t: usize, ty: Option<&str>, row: usize) -> usize {
        let h = self.open(Some(t), NodeKind::ExceptClause, row, "except");
        if let Some(ty) = ty {
            self.key_leaf(h, row, ty);
        }
        self.close(h);
        h
    }

    fn finish(mut self) -> SyntaxTree {
        self.close(0);
        SyntaxTree { nodes: self.nodes }
    }
}

fn local(line: usize, function: &str) -> (usize, String) {
    (line, function.to_string())
}

fn locals(ds: &[Diagnostic]) -> Vec<(usize, String)> {
    ds.iter()
        .filter_map(|d| match d {
            Diagnostic::UnguardedAccess { line, function } => Some((*line, function.clone())),
            _ => None,
        })
        .collect()
}

fn calls(ds: &[Diagnostic]) -> Vec<(usize, String, String, bool)> {
    ds.iter()
        .filter_map(|d| match d {
            Diagnostic::UnhandledCall { line, labels, callee, caller } => {
                Some((*line, callee.clone(), caller.clone(), labels.key_not_found))
            }
            _ => None,
        })
        .collect()
}

/// def get(d):       row 0
///     return d[x]   row 1
/// def caller():     row 2
///     get(d)        row 3
fn get_and_caller(guard: Option<Option<&str>>) -> SyntaxTree {
    let mut b = Builder::new();
    let get = b.func(0, "get", 0);
    match guard {
        None => {
            b.access(get, 1);
        }
        Some(ty) => {
            let t = b.try_stmt(get, 1);
            b.access(t, 2);
            b.handler(t, ty, 3);
            b.close(t);
        }
    }
    b.close(get);
    let caller = b.func(0, "caller", 4);
    b.call(caller, "get", 5);
    b.close(caller);
    b.finish()
}

fn guarded_access_tree(ty: Option<&str>) -> (SyntaxTree, usize) {
    let mut b = Builder::new();
    let f = b.func(0, "f", 0);
    let t = b.try_stmt(f, 1);
    let a = b.access(t, 2);
    b.handler(t, ty, 3);
    b.close(t);
    b.close(f);
    (b.finish(), a)
}

#[test]
fn unguarded_lookup_reported_once() {
    let mut b = Builder::new();
    let get = b.func(0, "get", 0);
    b.access(get, 1);
    b.close(get);
    let caller = b.func(0, "caller", 2);
    b.call(caller, "get", 3);
    b.close(caller);
    let ds = analyze(&b.finish()).unwrap();
    assert_eq!(ds.len(), 1);
    assert_eq!(locals(&ds), vec![local(2, "get")]);
}

#[test]
fn guarded_lookup_is_silent() {
    let ds = analyze(&get_and_caller(Some(Some("KeyError")))).unwrap();
    assert!(ds.is_empty());
}

#[test]
fn module_level_access_not_reported_locally() {
    let mut b = Builder::new();
    b.access(0, 0);
    let ds = analyze(&b.finish()).unwrap();
    assert!(ds.is_empty());
}

#[test]
fn module_level_call_still_warned() {
    // def g(): d[x]     rows 0-1
    // def h(): g()      rows 2-3
    // d[x]; h()         rows 4-5
    let mut b = Builder::new();
    let g = b.func(0, "g", 0);
    b.access(g, 1);
    b.close(g);
    let h = b.func(0, "h", 2);
    b.call(h, "g", 3);
    b.close(h);
    b.access(0, 4);
    b.call(0, "h", 5);
    let ds = analyze(&b.finish()).unwrap();
    assert_eq!(locals(&ds), vec![local(2, "g")]);
    assert_eq!(calls(&ds), vec![(6, "h".to_string(), MODULE_NAME.to_string(), true)]);
}

#[test]
fn key_error_handler_guards() {
    let (tree, a) = guarded_access_tree(Some("KeyError"));
    assert!(is_guarded(&tree, a, FailureKind::KeyNotFound));
    assert!(analyze(&tree).unwrap().is_empty());
}

#[test]
fn exception_handler_guards() {
    let (tree, a) = guarded_access_tree(Some("Exception"));
    assert!(is_guarded(&tree, a, FailureKind::KeyNotFound));
    assert!(analyze(&tree).unwrap().is_empty());
}

#[test]
fn bare_handler_guards() {
    let (tree, a) = guarded_access_tree(None);
    assert!(is_guarded(&tree, a, FailureKind::KeyNotFound));
    assert!(analyze(&tree).unwrap().is_empty());
}

#[test]
fn value_error_handler_does_not_guard() {
    let (tree, a) = guarded_access_tree(Some("ValueError"));
    assert!(!is_guarded(&tree, a, FailureKind::KeyNotFound));
    assert_eq!(locals(&analyze(&tree).unwrap()), vec![local(3, "f")]);
}

#[test]
fn outer_handler_guards_through_inner_try() {
    let mut b = Builder::new();
    let f = b.func(0, "f", 0);
    let outer = b.try_stmt(f, 1);
    let inner = b.try_stmt(outer, 2);
    let a = b.access(inner, 3);
    b.handler(inner, Some("ValueError"), 4);
    b.close(inner);
    b.handler(outer, Some("KeyError"), 5);
    b.close(outer);
    b.close(f);
    let tree = b.finish();
    assert!(is_guarded(&tree, a, FailureKind::KeyNotFound));
    assert!(analyze(&tree).unwrap().is_empty());
}

#[test]
fn handler_of_nested_try_does_not_guard_outer_body() {
    // try:
    //     d[x]
    //     try: pass
    //     except KeyError: pass
    // except ValueError: pass
    let mut b = Builder::new();
    let f = b.func(0, "f", 0);
    let outer = b.try_stmt(f, 1);
    let a = b.access(outer, 2);
    let inner = b.try_stmt(outer, 3);
    b.handler(inner, Some("KeyError"), 4);
    b.close(inner);
    b.handler(outer, Some("ValueError"), 5);
    b.close(outer);
    b.close(f);
    let tree = b.finish();
    assert!(!is_guarded(&tree, a, FailureKind::KeyNotFound));
}

/// def c(): d[x]; def b(): c(); def a(): b()
fn chain() -> SyntaxTree {
    let mut b = Builder::new();
    let fc = b.func(0, "c", 0);
    b.access(fc, 1);
    b.close(fc);
    let fb = b.func(0, "b", 2);
    b.call(fb, "c", 3);
    b.close(fb);
    let fa = b.func(0, "a", 4);
    b.call(fa, "b", 5);
    b.close(fa);
    b.finish()
}

fn index_of(tree: &SyntaxTree) -> FunctionIndex {
    assert!(tree.check_well_formed());
    let mut idx = FunctionIndex::build(tree).unwrap();
    idx.propagate(tree);
    idx
}

fn entry(idx: &FunctionIndex, name: &str) -> usize {
    idx.find_function(&name.to_string()).unwrap()
}

#[test]
fn labels_propagate_transitively() {
    let tree = chain();
    let idx = index_of(&tree);
    for name in ["a", "b", "c"] {
        assert!(idx.functions[entry(&idx, name)].may_raise.contains(FailureKind::KeyNotFound));
    }
    // The module's body is the whole file, so it holds `c`'s access too.
    assert!(idx.functions[entry(&idx, MODULE_NAME)].may_raise.contains(FailureKind::KeyNotFound));
}

#[test]
fn chain_reports_access_and_outer_call() {
    let ds = analyze(&chain()).unwrap();
    assert_eq!(locals(&ds), vec![local(2, "c")]);
    assert_eq!(calls(&ds), vec![(6, "b".to_string(), "a".to_string(), true)]);
}

#[test]
fn pass_after_convergence_changes_nothing() {
    let tree = chain();
    let mut idx = index_of(&tree);
    let before: Vec<bool> = idx.functions.iter().map(|f| f.may_raise.key_not_found).collect();
    assert!(!idx.run_pass(&tree));
    let after: Vec<bool> = idx.functions.iter().map(|f| f.may_raise.key_not_found).collect();
    assert_eq!(before, after);
}

#[test]
fn labels_never_shrink_across_passes() {
    let tree = chain();
    assert!(tree.check_well_formed());
    let mut idx = FunctionIndex::build(&tree).unwrap();
    let mut prev: Vec<bool> = idx.functions.iter().map(|f| f.may_raise.key_not_found).collect();
    for _ in 0..4 {
        idx.run_pass(&tree);
        let cur: Vec<bool> = idx.functions.iter().map(|f| f.may_raise.key_not_found).collect();
        for (p, c) in prev.iter().zip(cur.iter()) {
            assert!(!*p || *c);
        }
        prev = cur;
    }
}

#[test]
fn reported_callee_suppresses_call_warning() {
    let tree = get_and_caller(None);
    let mut idx = index_of(&tree);
    let local_ds = idx.report_local(&tree);
    assert_eq!(locals(&local_ds), vec![local(2, "get")]);
    assert!(idx.functions[entry(&idx, "get")].reported_locally);
    assert!(idx.report_calls(&tree).is_empty());
}

#[test]
fn guarded_call_does_not_inherit() {
    // def g(): h()   (h raises, not reported: it calls c)
    let mut b = Builder::new();
    let fc = b.func(0, "c", 0);
    b.access(fc, 1);
    b.close(fc);
    let fh = b.func(0, "h", 2);
    b.call(fh, "c", 3);
    b.close(fh);
    let fg = b.func(0, "g", 4);
    let t = b.try_stmt(fg, 5);
    b.call(t, "h", 6);
    b.handler(t, Some("KeyError"), 7);
    b.close(t);
    b.close(fg);
    let tree = b.finish();
    let idx = index_of(&tree);
    assert!(idx.functions[entry(&idx, "h")].may_raise.contains(FailureKind::KeyNotFound));
    assert!(!idx.functions[entry(&idx, "g")].may_raise.contains(FailureKind::KeyNotFound));
    assert!(calls(&analyze(&tree).unwrap()).is_empty());
}

#[test]
fn duplicate_call_on_one_line_warned_once() {
    let mut b = Builder::new();
    let fc = b.func(0, "c", 0);
    b.access(fc, 1);
    b.close(fc);
    let fh = b.func(0, "h", 2);
    b.call(fh, "c", 3);
    b.close(fh);
    let fg = b.func(0, "g", 4);
    b.call(fg, "h", 5);
    b.call(fg, "h", 5);
    b.call(fg, "h", 6);
    b.close(fg);
    let ds = analyze(&b.finish()).unwrap();
    assert_eq!(
        calls(&ds),
        vec![(6, "h".to_string(), "g".to_string(), true), (7, "h".to_string(), "g".to_string(), true)]
    );
}

#[test]
fn unknown_callee_is_ignored() {
    let mut b = Builder::new();
    let fc = b.func(0, "c", 0);
    b.access(fc, 1);
    b.close(fc);
    let fg = b.func(0, "g", 2);
    b.call(fg, "obj.c", 3);
    b.close(fg);
    let tree = b.finish();
    let idx = index_of(&tree);
    assert!(!idx.functions[entry(&idx, "g")].may_raise.contains(FailureKind::KeyNotFound));
}

#[test]
fn later_definition_replaces_earlier() {
    let mut b = Builder::new();
    let f1 = b.func(0, "f", 0);
    b.close(f1);
    let f2 = b.func(0, "f", 1);
    b.access(f2, 2);
    b.close(f2);
    let tree = b.finish();
    assert!(tree.check_well_formed());
    let idx = FunctionIndex::build(&tree).unwrap();
    assert_eq!(idx.functions.len(), 2);
    assert_eq!(idx.functions[entry(&idx, "f")].body, f2);
    assert_eq!(idx.functions[entry(&idx, MODULE_NAME)].body, 0);
    assert_eq!(locals(&analyze(&tree).unwrap()), vec![local(3, "f")]);
}

#[test]
fn nested_function_calls_belong_to_outer() {
    let mut b = Builder::new();
    let outer = b.func(0, "outer", 0);
    let inner = b.func(outer, "inner", 1);
    let c = b.call(inner, "helper", 2);
    b.close(inner);
    b.close(outer);
    let tree = b.finish();
    let sites = collect_calls(&tree, outer);
    assert_eq!(sites.len(), 1);
    assert_eq!(sites[0].name, "helper");
    assert_eq!(sites[0].node, c);
}

#[test]
fn accesses_found_in_preorder() {
    let mut b = Builder::new();
    let f = b.func(0, "f", 0);
    let a1 = b.access(f, 1);
    let t = b.try_stmt(f, 2);
    b.access(t, 3);
    b.handler(t, Some("KeyError"), 4);
    b.close(t);
    let a2 = b.access(f, 5);
    b.close(f);
    let tree = b.finish();
    assert_eq!(find_unguarded_accesses(&tree, f), vec![a1, a2]);
}

#[test]
fn missing_function_name_is_an_error() {
    let mut b = Builder::new();
    let f = b.open(Some(0), NodeKind::FunctionDefinition, 0, "def");
    b.close(f);
    assert_eq!(analyze(&b.finish()).unwrap_err(), AnalysisError::MissingName { node: 1 });
}

#[test]
fn empty_tree_is_malformed() {
    let tree = SyntaxTree { nodes: Vec::new() };
    assert!(!tree.check_well_formed());
    assert_eq!(analyze(&tree).unwrap_err(), AnalysisError::MalformedTree);
}

#[test]
fn bad_subtree_end_is_malformed() {
    let mut b = Builder::new();
    let f = b.func(0, "f", 0);
    b.close(f);
    let mut tree = b.finish();
    tree.nodes[f].end = f;
    assert!(!tree.check_well_formed());
    assert_eq!(analyze(&tree).unwrap_err(), AnalysisError::MalformedTree);
}

#[test]
fn failure_set_operations() {
    let mut s = FailureSet::empty();
    assert!(s.is_empty());
    assert!(s.is_subset_of(&FailureSet::empty()));
    s.insert(FailureKind::KeyNotFound);
    assert!(s.contains(FailureKind::KeyNotFound));
    assert!(!s.is_subset_of(&FailureSet::empty()));
    assert_eq!(FailureSet::empty().union(&s), s);
}

#[test]
fn entries_in_first_definition_order() {
    let mut b = Builder::new();
    let f1 = b.func(0, "f", 0);
    b.access(f1, 1);
    b.close(f1);
    let g = b.func(0, "g", 2);
    b.access(g, 3);
    b.close(g);
    let f2 = b.func(0, "f", 4);
    b.access(f2, 5);
    b.close(f2);
    let tree = b.finish();
    assert!(tree.check_well_formed());
    let idx = FunctionIndex::build(&tree).unwrap();
    let names: Vec<&str> = idx.functions.iter().map(|f| f.name.as_str()).collect();
    assert_eq!(names, vec!["f", "g", MODULE_NAME]);
    assert_eq!(locals(&analyze(&tree).unwrap()), vec![local(6, "f"), local(4, "g")]);
}
