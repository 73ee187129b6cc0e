//! Interprocedural detection of uncaught missing-key lookups.
//!
//! A source file arrives as a [`tree::SyntaxTree`]: a pre-order array of
//! syntax nodes. The analysis indexes the functions it declares, decides for
//! each indexing access and call whether an enclosing handler catches a
//! missing key, propagates the failure labels through the call graph to a
//! fixed point, and reports the accesses and calls that are left unguarded.

pub mod analysis;
pub mod guard;
pub mod index;
pub mod parse;
pub mod propagate;
pub mod report;
pub mod sites;
pub mod tree;

pub use analysis::analyze;
pub use guard::{is_guarded, FailureKind};
pub use parse::{parse_python, SourceError};
pub use index::{AnalysisError, FailureSet, FunctionIndex, FunctionInfo, MODULE_NAME};
pub use report::Diagnostic;
pub use sites::{collect_calls, find_unguarded_accesses, CallSite};
pub use tree::{NodeKind, SyntaxNode, SyntaxTree};
