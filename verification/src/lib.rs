//! Truth-table rendering for boolean programs.
//!
//! Given a parsed program whose final value is boolean, the crate discovers
//! the free variables, enumerates every boolean assignment to them, decides
//! what each evaluation outcome means for the table, and renders an aligned,
//! bordered text table of the results. Parsing and evaluation themselves are
//! the work of external collaborators; the table-generation core is verified.

pub mod assign;
pub mod order;
pub mod outcome;
pub mod program;
pub mod render;
pub mod vars;
