use vstd::prelude::*;

use crate::index::{in_definition_order, indexes_definitions, module_last, table_wf, unnamed_definition, AnalysisError, FunctionIndex, FunctionInfo, MODULE_NAME};
use crate::propagate::{grows, is_fixed_point, is_least_above, same_entries};
use crate::report::{diagnostics, Diagnostic};
use crate::tree::SyntaxTree;

verus! {

/// `fs0` is the function index of `tree` as first built, in the order of
/// first definitions with the module entry last, and `fp` is that index once
/// labels have been propagated to the least fixed point. The warnings follow
/// this order of entries.
pub open spec fn propagated_index(tree: SyntaxTree, fs0: Seq<FunctionInfo>, fp: Seq<FunctionInfo>) -> bool {
    &&& table_wf(tree, fs0)
    &&& indexes_definitions(tree, fs0, tree.len())
    &&& in_definition_order(tree, fs0)
    &&& module_last(tree, fs0)
    &&& exists|k: int| 0 <= k < fs0.len() && #[trigger] fs0[k].name@ == MODULE_NAME@ && fs0[k].body == 0
    &&& same_entries(fs0, fp)
    &&& grows(fs0, fp)
    &&& is_fixed_point(tree, fp)
    &&& is_least_above(tree, fs0, fp)
}

/// Analyses one file: indexes its functions, propagates the failure labels
/// to a fixed point and returns the warnings, local ones first.
pub fn analyze(tree: &SyntaxTree) -> (r: Result<Vec<Diagnostic>, AnalysisError>)
    ensures
        !tree.wf() <==> r == Err::<Vec<Diagnostic>, AnalysisError>(AnalysisError::MalformedTree),
        tree.wf() && (forall|i: int| 0 <= i < tree.len() ==> !unnamed_definition(*tree, i)) ==> r is Ok,
        match r {
            Ok(ds) => tree.wf() && exists|fs0: Seq<FunctionInfo>, fp: Seq<FunctionInfo>|
                #[trigger] propagated_index(*tree, fs0, fp) && diagnostics(*tree, fp) == ds@,
            Err(AnalysisError::MissingName { node }) => {
                &&& node < tree.len()
                &&& unnamed_definition(*tree, node as int)
                &&& forall|i: int| 0 <= i < node ==> !unnamed_definition(*tree, i)
            },
            Err(AnalysisError::MalformedTree) => true,
        },
{
    if !tree.check_well_formed() {
        return Err(AnalysisError::MalformedTree);
    }
    let mut idx = match FunctionIndex::build(tree) {
        Ok(idx) => idx,
        Err(e) => {
            return Err(e);
        },
    };
    let ghost fs0 = idx.functions@;
    idx.propagate(tree);
    let ghost fp = idx.functions@;
    let mut out = idx.report_local(tree);
    let mut calls = idx.report_calls(tree);
    out.append(&mut calls);
    assert(propagated_index(*tree, fs0, fp));
    assert(out@ =~= diagnostics(*tree, fp));
    Ok(out)
}

} // verus!
