//! Semantic-analysis core of a small language compiler: an arena-owned
//! semantic graph built by a hierarchical scope-chain name resolver, a
//! surface-type resolver that consults that chain, and the nested rename
//! tables used by the static-single-assignment conversion pass.

pub mod ast;
pub mod errors;
pub mod rename_table;
pub mod scope;
pub mod span;
pub mod statement;
pub mod table;
pub mod types;
