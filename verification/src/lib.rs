//! CodeAtlas: maps a codebase — its files, functions and classes and the
//! import, export, call and containment edges between them — and derives the
//! mechanical semantics (layers, flows, a guided tour) that make the map
//! complete without any model.

pub mod text;
pub mod map;
pub mod semantics;
pub mod enrich;
pub mod launcher;
pub mod paths;
pub mod highlight;
pub mod diff;
pub mod share;
pub mod parsers;
pub mod scan;
