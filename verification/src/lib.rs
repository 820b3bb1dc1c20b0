//! Engine of an interactive scaffolding wizard.
//!
//! A declarative template (a nested YAML mapping) is compiled into a tree of
//! question nodes; a cursor walks that tree one interactive node at a time
//! while answers are committed into a parallel result tree; once the walk
//! reaches the end of the tree, validation either hands out a finalized tree
//! of plain path segments or reports that answers are still missing.

pub mod engine;
pub mod nodes;
pub mod parser;
pub mod tree;
