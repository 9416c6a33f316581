//! Enum-state instrumentation core.
//!
//! This library rewrites a syntax tree so that every bare usage of an enum
//! variant (a `let` initializer, the right-hand side of an assignment
//! statement, or a call argument that is a plain `Enum::Variant` path) is
//! preceded by a call to the runtime hook `sginstrument::instrument(location,
//! state)`.  Locations are numbered `1, 2, 3, ...` across a whole run; each
//! distinct `Enum::Variant` key is given a stable state id in first-seen
//! order starting at 0; nothing is injected inside compile-time contexts
//! (const functions, const items, static items).
//!
//! Parsing source text into the tree and printing the rewritten tree back
//! out are the business of an external parser library and of the driver
//! around this crate; the tree shapes the rewrite acts on are modelled here
//! as plain data.

pub mod ast;
pub mod laws;
pub mod rewrite;
pub mod state;
pub mod visitor;
