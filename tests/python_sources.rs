use keyerror_lint::{analyze, parse_python, Diagnostic, NodeKind, MODULE_NAME};

fn run(source: &str) -> Vec<Diagnostic> {
    let tree = parse_python(source).unwrap();
    assert!(tree.check_well_formed());
    analyze(&tree).unwrap()
}

fn summary(ds: &[Diagnostic]) -> Vec<String> {
    ds.iter()
        .map(|d| match d {
            Diagnostic::UnguardedAccess { line, function } => format!("{}: access in {}", line, function),
            Diagnostic::UnhandledCall { line, labels, callee, caller } => {
                format!("{}: call {} in {} ({})", line, callee, caller, labels.key_not_found)
            }
        })
        .collect()
}

#[test]
fn parsed_tree_has_expected_kinds() {
    let tree = parse_python("def f(d):\n    return d['x']\n").unwrap();
    let kinds: Vec<NodeKind> = tree.nodes.iter().map(|n| n.kind).collect();
    assert!(kinds.contains(&NodeKind::FunctionDefinition));
    assert!(kinds.contains(&NodeKind::Subscript));
    let def = kinds.iter().position(|k| *k == NodeKind::FunctionDefinition).unwrap();
    let name = tree.nodes[def].key_child.unwrap();
    assert_eq!(tree.nodes[name].text, "f");
    let sub = kinds.iter().position(|k| *k == NodeKind::Subscript).unwrap();
    assert_eq!(tree.nodes[sub].row, 1);
}

#[test]
fn scenario_unguarded_get() {
    let src = "def get(d):\n    return d['x']\n\ndef caller():\n    get({})\n";
    assert_eq!(summary(&run(src)), vec!["2: access in get"]);
}

#[test]
fn scenario_guarded_get() {
    let src = "def get(d):\n    try:\n        return d['x']\n    except KeyError:\n        return None\n\ndef caller():\n    get({})\n";
    assert!(run(src).is_empty());
}

#[test]
fn scenario_module_level_access() {
    let src = "d = {}\nprint(d['x'])\n";
    assert!(run(src).is_empty());
}

#[test]
fn scenario_module_calls_helper_that_inherits() {
    let src = "def g(d):\n    return d['x']\n\ndef h():\n    return g({})\n\nh()\n";
    assert_eq!(summary(&run(src)), vec!["2: access in g".to_string(), format!("7: call h in {} (true)", MODULE_NAME)]);
}

#[test]
fn value_error_handler_reports() {
    let src = "def f(d):\n    try:\n        return d['x']\n    except ValueError:\n        pass\n";
    assert_eq!(summary(&run(src)), vec!["3: access in f"]);
}

#[test]
fn bare_and_exception_handlers_guard() {
    let bare = "def f(d):\n    try:\n        return d['x']\n    except:\n        pass\n";
    let exc = "def f(d):\n    try:\n        return d['x']\n    except Exception as e:\n        pass\n";
    assert!(run(bare).is_empty());
    assert!(run(exc).is_empty());
}

#[test]
fn transitive_chain_from_source() {
    let src = "def c(d):\n    return d['k']\n\ndef b():\n    return c({})\n\ndef a():\n    return b()\n";
    assert_eq!(summary(&run(src)), vec!["2: access in c", "8: call b in a (true)"]);
}

#[test]
fn guarded_call_from_source() {
    let src = "def c(d):\n    return d['k']\n\ndef b():\n    return c({})\n\ndef a():\n    try:\n        b()\n    except KeyError:\n        pass\n";
    assert_eq!(summary(&run(src)), vec!["2: access in c"]);
}

#[test]
fn named_value_error_handler_reports() {
    let src = "def f(d):\n    try:\n        return d['x']\n    except ValueError as e:\n        pass\n";
    assert_eq!(summary(&run(src)), vec!["3: access in f"]);
}

#[test]
fn handler_type_is_key_child() {
    let tree = parse_python("try:\n    pass\nexcept KeyError as e:\n    pass\n").unwrap();
    let h = tree.nodes.iter().position(|n| n.kind == NodeKind::ExceptClause).unwrap();
    let ty = tree.nodes[h].key_child.unwrap();
    assert_eq!(tree.nodes[ty].text, "KeyError");
}
