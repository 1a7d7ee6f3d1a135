//! Knowledge registry: named collections of URI-addressed sources
//! (whole files or line ranges) with their parsing, bookkeeping and
//! rendering rules.

pub mod text;
pub mod decimal;
pub mod uri;
pub mod registry;
pub mod lines;
pub mod render;
pub mod report;
pub mod output;
pub mod laws;
pub mod path;
pub mod storage;
pub mod glob;
pub mod discover;
