//! Resolution-and-evaluation core of a small experimental language.
//!
//! Declarations are organised into a queryable, uniquely-keyed store built on
//! a two-kind tag system instead of conventional modules: primary tags enforce
//! name uniqueness among their members, secondary tags do not.  A set-algebra
//! engine combines two tags' member sets and classifies the result as primary
//! or secondary.  A resolver accumulates each name's type signature, tag list
//! and implementation and commits complete bindings into the store, and an
//! evaluator interprets committed bindings by direct environment passing.

pub mod ast;
pub mod indentation;
pub mod tag;
pub mod script;
pub mod universe;
pub mod eval;
