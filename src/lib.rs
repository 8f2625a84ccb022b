//! Namespace and item-resolution core of a smart-contract language analyzer:
//! interned entities, module scopes, path resolution and dependency graphs.
pub mod ast;
pub mod copy;
pub mod ingot;
pub mod db;
pub mod depgraph;
pub mod diagnostics;
pub mod deps;
pub mod entities;
pub mod ids;
pub mod item;
pub mod laws;
pub mod namemap;
pub mod paths;
pub mod scope;
