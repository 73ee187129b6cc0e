use vstd::prelude::*;

use crate::guard::FailureKind;
use crate::tree::{NodeKind, SyntaxTree};

verus! {

/// The name under which code at module level stands in the function index.
pub const MODULE_NAME: &'static str = "<module>";

/// A set of failure labels, one flag per label.
#[derive(Clone, Copy, Debug, PartialEq, Eq, Structural)]
pub struct FailureSet {
    pub key_not_found: bool,
}

impl FailureSet {
    pub open spec fn view(&self) -> Set<FailureKind> {
        Set::new(|k: FailureKind| match k {
            FailureKind::KeyNotFound => self.key_not_found,
        })
    }

    pub fn empty() -> (r: FailureSet)
        ensures
            r@ == Set::<FailureKind>::empty(),
    {
        let r = FailureSet { key_not_found: false };
        assert(r@ =~= Set::<FailureKind>::empty());
        r
    }

    pub fn contains(&self, kind: FailureKind) -> (r: bool)
        ensures
            r == self@.contains(kind),
    {
        match kind {
            FailureKind::KeyNotFound => self.key_not_found,
        }
    }

    pub fn insert(&mut self, kind: FailureKind)
        ensures
            final(self)@ == old(self)@.insert(kind),
    {
        match kind {
            FailureKind::KeyNotFound => self.key_not_found = true,
        }
        assert(final(self)@ =~= old(self)@.insert(kind));
    }

    pub fn is_empty(&self) -> (r: bool)
        ensures
            r == (self@ == Set::<FailureKind>::empty()),
    {
        if self.key_not_found {
            assert(self@.contains(FailureKind::KeyNotFound));
            false
        } else {
            assert(self@ =~= Set::<FailureKind>::empty());
            true
        }
    }

    pub fn is_subset_of(&self, other: &FailureSet) -> (r: bool)
        ensures
            r == self@.subset_of(other@),
    {
        let r = !self.key_not_found || other.key_not_found;
        if !r {
            assert(self@.contains(FailureKind::KeyNotFound));
        }
        r
    }

    /// The labels of both sets.
    pub fn union(&self, other: &FailureSet) -> (r: FailureSet)
        ensures
            r@ == self@.union(other@),
    {
        let r = FailureSet { key_not_found: self.key_not_found || other.key_not_found };
        assert(r@ =~= self@.union(other@));
        r
    }
}

/// What the analysis knows of one function.
#[derive(Clone, Debug)]
pub struct FunctionInfo {
    pub name: String,
    /// The node whose subtree is the function: its definition, or the root
    /// for module-level code.
    pub body: usize,
    /// The failure labels the function may let escape; it only grows.
    pub may_raise: FailureSet,
    /// Set once an unguarded access of the function itself was reported.
    pub reported_locally: bool,
}

/// The functions of one file, keyed by name; each name occurs once.
#[derive(Clone, Debug)]
pub struct FunctionIndex {
    pub functions: Vec<FunctionInfo>,
}

/// Why a file could not be analysed.
#[derive(Clone, Copy, Debug, PartialEq, Eq, Structural)]
pub enum AnalysisError {
    /// The node array does not form a tree in pre-order.
    MalformedTree,
    /// A function definition without a name.
    MissingName { node: usize },
}

/// No two entries share a name.
pub open spec fn names_unique(fs: Seq<FunctionInfo>) -> bool {
    forall|a: int, b: int|
        0 <= a < fs.len() && 0 <= b < fs.len() && a != b ==> #[trigger] fs[a].name@ != #[trigger] fs[b].name@
}

/// The entries are keyed uniquely and their bodies are nodes of `tree`.
pub open spec fn table_wf(tree: SyntaxTree, fs: Seq<FunctionInfo>) -> bool {
    &&& names_unique(fs)
    &&& forall|k: int| 0 <= k < fs.len() ==> #[trigger] fs[k].body < tree.len()
}

/// Node `i` defines a function named `name`.
pub open spec fn defines(tree: SyntaxTree, i: int, name: Seq<char>) -> bool {
    tree.nodes@[i].kind == NodeKind::FunctionDefinition && tree.key_text(i) == Some(name)
}

/// Node `i` is the last definition, in pre-order, of a function named `name`.
pub open spec fn last_definition(tree: SyntaxTree, i: int, name: Seq<char>, hi: int) -> bool {
    &&& 0 <= i < hi
    &&& defines(tree, i, name)
    &&& forall|j: int| i < j < hi ==> !#[trigger] defines(tree, j, name)
}

/// Node `i` is the first definition, in pre-order, of a function named `name`.
pub open spec fn first_definition(tree: SyntaxTree, i: int, name: Seq<char>) -> bool {
    &&& 0 <= i
    &&& defines(tree, i, name)
    &&& forall|j: int| 0 <= j < i ==> !#[trigger] defines(tree, j, name)
}

/// The entries for defined functions stand in the order of their names'
/// first definitions in pre-order.
pub open spec fn in_definition_order(tree: SyntaxTree, fs: Seq<FunctionInfo>) -> bool {
    forall|k1: int, k2: int, i1: int, i2: int|
        0 <= k1 < k2 < fs.len() && fs[k1].name@ != MODULE_NAME@ && fs[k2].name@ != MODULE_NAME@
        && #[trigger] first_definition(tree, i1, fs[k1].name@) && #[trigger] first_definition(tree, i2, fs[k2].name@)
        ==> i1 < i2
}

/// Where no function is named like the module entry, that entry comes last.
pub open spec fn module_last(tree: SyntaxTree, fs: Seq<FunctionInfo>) -> bool {
    (forall|i: int| 0 <= i < tree.len() ==> !#[trigger] defines(tree, i, MODULE_NAME@))
        ==> fs.len() > 0 && fs.last().name@ == MODULE_NAME@
}

/// Node `i` is a function definition without a name.
pub open spec fn unnamed_definition(tree: SyntaxTree, i: int) -> bool {
    tree.nodes@[i].kind == NodeKind::FunctionDefinition && tree.nodes@[i].key_child is None
}

/// The entries of an index as first built from the definitions among nodes
/// `0..hi`: each entry is the last definition of its name, and each name
/// defined there has an entry.
pub open spec fn indexes_definitions(tree: SyntaxTree, fs: Seq<FunctionInfo>, hi: int) -> bool {
    &&& forall|k: int| 0 <= k < fs.len() ==> {
        &&& #[trigger] fs[k].may_raise@ == Set::<FailureKind>::empty()
        &&& !fs[k].reported_locally
    }
    &&& forall|k: int| 0 <= k < fs.len() && fs[k].name@ != MODULE_NAME@ ==>
        last_definition(tree, #[trigger] fs[k].body as int, fs[k].name@, hi)
    &&& forall|i: int, name: Seq<char>| 0 <= i < hi && #[trigger] defines(tree, i, name) && name != MODULE_NAME@
        ==> exists|k: int| 0 <= k < fs.len() && #[trigger] fs[k].name@ == name
}

impl FunctionIndex {
    pub open spec fn wf(&self, tree: SyntaxTree) -> bool {
        table_wf(tree, self.functions@)
    }

    /// Position of the entry named `name`, if there is one.
    pub fn find_function(&self, name: &String) -> (r: Option<usize>)
        ensures
            match r {
                Some(k) => k < self.functions@.len() && self.functions@[k as int].name@ == name@,
                None => forall|k: int| 0 <= k < self.functions@.len() ==> #[trigger] self.functions@[k].name@ != name@,
            },
    {
        let mut k: usize = 0;
        while k < self.functions.len()
            invariant
                k <= self.functions@.len(),
                forall|j: int| 0 <= j < k ==> #[trigger] self.functions@[j].name@ != name@,
            decreases self.functions@.len() - k,
        {
            if self.functions[k].name == *name {
                return Some(k);
            }
            k = k + 1;
        }
        None
    }

    /// Records that the function `name` has its body at `body`: a later
    /// definition replaces the body of an earlier one of the same name.
    fn upsert(&mut self, name: String, body: usize)
        requires
            names_unique(old(self).functions@),
        ensures
            names_unique(final(self).functions@),
            exists|k: int| 0 <= k < final(self).functions@.len() && {
                &&& #[trigger] final(self).functions@[k].name@ == name@
                &&& final(self).functions@[k].body == body
                &&& final(self).functions@[k].may_raise@ == Set::<FailureKind>::empty()
                &&& !final(self).functions@[k].reported_locally
            },
            forall|k: int| 0 <= k < final(self).functions@.len() && #[trigger] final(self).functions@[k].name@ != name@
                ==> k < old(self).functions@.len() && final(self).functions@[k] == old(self).functions@[k],
            forall|k: int| 0 <= k < old(self).functions@.len() ==> exists|j: int|
                0 <= j < final(self).functions@.len() && #[trigger] final(self).functions@[j].name@ == #[trigger] old(self).functions@[k].name@,
            forall|k: int| 0 <= k < old(self).functions@.len() ==> #[trigger] final(self).functions@[k].name@ == old(self).functions@[k].name@,
            (exists|k: int| 0 <= k < old(self).functions@.len() && #[trigger] old(self).functions@[k].name@ == name@)
                ==> final(self).functions@.len() == old(self).functions@.len(),
            (forall|k: int| 0 <= k < old(self).functions@.len() ==> #[trigger] old(self).functions@[k].name@ != name@)
                ==> final(self).functions@.len() == old(self).functions@.len() + 1
                && final(self).functions@.last().name@ == name@,
    {
        let info = FunctionInfo { name, body, may_raise: FailureSet::empty(), reported_locally: false };
        match self.find_function(&info.name) {
            Some(k) => {
                self.functions.set(k, info);
                assert(final(self).functions@[k as int].name@ == info.name@);
            },
            None => {
                self.functions.push(info);
                let ghost n = final(self).functions@.len() - 1;
                assert(final(self).functions@[n].name@ == info.name@);
            },
        }
        assert forall|k: int| 0 <= k < old(self).functions@.len() implies exists|j: int|
            0 <= j < final(self).functions@.len() && #[trigger] final(self).functions@[j].name@ == #[trigger] old(self).functions@[k].name@ by {
            assert(final(self).functions@[k].name@ == old(self).functions@[k].name@);
        }
    }

    /// Indexes every function definition of `tree`, nested ones included,
    /// in pre-order, and adds the module entry whose body is the root. A name
    /// defined twice keeps its last definition.
    pub fn build(tree: &SyntaxTree) -> (r: Result<FunctionIndex, AnalysisError>)
        requires
            tree.wf(),
        ensures
            match r {
                Ok(idx) => {
                    &&& idx.wf(*tree)
                    &&& forall|i: int| 0 <= i < tree.len() ==> !unnamed_definition(*tree, i)
                    &&& indexes_definitions(*tree, idx.functions@, tree.len())
                    &&& in_definition_order(*tree, idx.functions@)
                    &&& module_last(*tree, idx.functions@)
                    &&& exists|k: int| 0 <= k < idx.functions@.len() && #[trigger] idx.functions@[k].name@ == MODULE_NAME@
                        && idx.functions@[k].body == 0
                },
                Err(e) => match e {
                    AnalysisError::MissingName { node } => {
                        &&& node < tree.len()
                        &&& unnamed_definition(*tree, node as int)
                        &&& forall|i: int| 0 <= i < node ==> !unnamed_definition(*tree, i)
                    },
                    AnalysisError::MalformedTree => false,
                },
            },
    {
        let mut idx = FunctionIndex { functions: Vec::new() };
        let len = tree.nodes.len();
        let mut i: usize = 0;
        while i < len
            invariant
                tree.wf(),
                len == tree.len(),
                i <= len,
                names_unique(idx.functions@),
                forall|k: int| 0 <= k < idx.functions@.len() ==> #[trigger] idx.functions@[k].body < i,
                forall|j: int| 0 <= j < i ==> !unnamed_definition(*tree, j),
                indexes_definitions(*tree, idx.functions@, i as int),
                in_definition_order(*tree, idx.functions@),
                forall|k: int| 0 <= k < idx.functions@.len() ==>
                    defines(*tree, #[trigger] idx.functions@[k].body as int, idx.functions@[k].name@),
            decreases len - i,
        {
            let n = &tree.nodes[i];
            if n.kind == NodeKind::FunctionDefinition {
                match n.key_child {
                    None => {
                        return Err(AnalysisError::MissingName { node: i });
                    },
                    Some(c) => {
                        proof {
                            assert(tree.node_wf(i as int));
                        }
                        let name = tree.nodes[c].text.clone();
                        let ghost before = idx.functions@;
                        idx.upsert(name, i);
                        proof {
                            let after = idx.functions@;
                            let hi = i + 1;
                            assert(defines(*tree, i as int, name@));
                            assert forall|k: int| 0 <= k < after.len() && after[k].name@ != MODULE_NAME@ implies
                                last_definition(*tree, #[trigger] after[k].body as int, after[k].name@, hi) by {
                                if after[k].name@ != name@ {
                                    assert(after[k] == before[k]);
                                    assert(last_definition(*tree, before[k].body as int, before[k].name@, i as int));
                                    assert(!defines(*tree, i as int, before[k].name@));
                                } else {
                                    assert(after[k].body == i) by {
                                        let kk = choose|kk: int| 0 <= kk < after.len() && #[trigger] after[kk].name@ == name@
                                            && after[kk].body == i;
                                    }
                                }
                            }
                            assert forall|j: int, nm: Seq<char>| 0 <= j < hi && #[trigger] defines(*tree, j, nm) && nm != MODULE_NAME@
                                implies exists|k: int| 0 <= k < after.len() && #[trigger] after[k].name@ == nm by {
                                if j < i {
                                    let k0 = choose|k: int| 0 <= k < before.len() && #[trigger] before[k].name@ == nm;
                                    assert(before[k0].name@ == nm);
                                } else {
                                    assert(nm == name@);
                                }
                            }
                            assert forall|k: int| 0 <= k < after.len() implies {
                                &&& #[trigger] after[k].may_raise@ == Set::<FailureKind>::empty()
                                &&& !after[k].reported_locally
                            } by {
                                if after[k].name@ != name@ {
                                    assert(after[k] == before[k]);
                                } else {
                                    let kk = choose|kk: int| 0 <= kk < after.len() && #[trigger] after[kk].name@ == name@
                                        && after[kk].body == i && after[kk].may_raise@ == Set::<FailureKind>::empty()
                                        && !after[kk].reported_locally;
                                }
                            }
                            assert forall|k1: int, k2: int, i1: int, i2: int|
                                0 <= k1 < k2 < after.len() && after[k1].name@ != MODULE_NAME@ && after[k2].name@ != MODULE_NAME@
                                && #[trigger] first_definition(*tree, i1, after[k1].name@)
                                && #[trigger] first_definition(*tree, i2, after[k2].name@)
                                implies i1 < i2 by {
                                if k2 < before.len() {
                                    assert(after[k1].name@ == before[k1].name@);
                                    assert(after[k2].name@ == before[k2].name@);
                                } else {
                                    assert(after[k2].name@ == name@);
                                    assert(forall|k: int| 0 <= k < before.len() ==> #[trigger] before[k].name@ != name@);
                                    if i2 < i {
                                        assert(defines(*tree, i2, name@));
                                    }
                                    assert(after[k1].name@ == before[k1].name@);
                                    assert(last_definition(*tree, before[k1].body as int, before[k1].name@, i as int));
                                    assert(defines(*tree, before[k1].body as int, before[k1].name@));
                                }
                            }
                            assert forall|k: int| 0 <= k < after.len() implies
                                defines(*tree, #[trigger] after[k].body as int, after[k].name@) by {
                                if after[k].name@ != name@ {
                                    assert(after[k] == before[k]);
                                } else {
                                    let kk = choose|kk: int| 0 <= kk < after.len() && #[trigger] after[kk].name@ == name@
                                        && after[kk].body == i;
                                }
                            }
                            assert forall|k: int| 0 <= k < after.len() implies #[trigger] after[k].body < i + 1 by {
                                if after[k].name@ != name@ {
                                    assert(after[k] == before[k]);
                                } else {
                                    let kk = choose|kk: int| 0 <= kk < after.len() && #[trigger] after[kk].name@ == name@
                                        && after[kk].body == i;
                                }
                            }
                        }
                    },
                }
            }
            proof {
                if tree.nodes@[i as int].kind != NodeKind::FunctionDefinition {
                    let fs = idx.functions@;
                    assert forall|k: int| 0 <= k < fs.len() && fs[k].name@ != MODULE_NAME@ implies
                        last_definition(*tree, #[trigger] fs[k].body as int, fs[k].name@, i + 1) by {
                        assert(!defines(*tree, i as int, fs[k].name@));
                    }
                    assert forall|j: int, nm: Seq<char>| 0 <= j < i + 1 && #[trigger] defines(*tree, j, nm) && nm != MODULE_NAME@
                        implies exists|k: int| 0 <= k < fs.len() && #[trigger] fs[k].name@ == nm by {
                        assert(j < i);
                    }
                }
            }
            i = i + 1;
        }
        proof {
            assert(tree.node_wf(0));
        }
        let ghost before = idx.functions@;
        idx.upsert(String::from_str(MODULE_NAME), 0);
        proof {
            let after = idx.functions@;
            assert forall|k1: int, k2: int, i1: int, i2: int|
                0 <= k1 < k2 < after.len() && after[k1].name@ != MODULE_NAME@ && after[k2].name@ != MODULE_NAME@
                && #[trigger] first_definition(*tree, i1, after[k1].name@)
                && #[trigger] first_definition(*tree, i2, after[k2].name@)
                implies i1 < i2 by {
                assert(after[k1].name@ == before[k1].name@);
                assert(after[k2].name@ == before[k2].name@);
            }
            if forall|i: int| 0 <= i < tree.len() ==> !#[trigger] defines(*tree, i, MODULE_NAME@) {
                assert forall|k: int| 0 <= k < before.len() implies #[trigger] before[k].name@ != MODULE_NAME@ by {
                    if before[k].name@ == MODULE_NAME@ {
                        assert(defines(*tree, before[k].body as int, before[k].name@));
                    }
                }
                assert(after.len() > 0 && after.last().name@ == MODULE_NAME@);
            }
            assert(module_last(*tree, after));
            assert(in_definition_order(*tree, after));
            assert forall|k: int| 0 <= k < after.len() && after[k].name@ != MODULE_NAME@ implies
                last_definition(*tree, #[trigger] after[k].body as int, after[k].name@, len as int) by {
                assert(after[k] == before[k]);
                assert(last_definition(*tree, before[k].body as int, before[k].name@, len as int));
            }
            assert forall|j: int, nm: Seq<char>| 0 <= j < len && #[trigger] defines(*tree, j, nm) && nm != MODULE_NAME@
                implies exists|k: int| 0 <= k < after.len() && #[trigger] after[k].name@ == nm by {
                let k0 = choose|k: int| 0 <= k < before.len() && #[trigger] before[k].name@ == nm;
                assert(before[k0].name@ == nm);
            }
            assert forall|k: int| 0 <= k < after.len() implies #[trigger] after[k].body < tree.len() by {
                if after[k].name@ != MODULE_NAME@ {
                    assert(after[k] == before[k]);
                } else {
                    let kk = choose|kk: int| 0 <= kk < after.len() && #[trigger] after[kk].name@ == MODULE_NAME@
                        && after[kk].body == 0;
                }
            }
            assert forall|k: int| 0 <= k < after.len() implies {
                &&& #[trigger] after[k].may_raise@ == Set::<FailureKind>::empty()
                &&& !after[k].reported_locally
            } by {
                if after[k].name@ != MODULE_NAME@ {
                    assert(after[k] == before[k]);
                } else {
                    let kk = choose|kk: int| 0 <= kk < after.len() && #[trigger] after[kk].name@ == MODULE_NAME@
                        && after[kk].body == 0 && after[kk].may_raise@ == Set::<FailureKind>::empty()
                        && !after[kk].reported_locally;
                }
            }
        }
        Ok(idx)
    }
}

} // verus!
