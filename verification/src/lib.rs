//! A declarative build orchestrator library: scope-aware variable expansion,
//! dependency-listing parsing, content-fingerprint caching, tool-rule matching,
//! and the decision logic of the target resolver. All computation here is
//! verified; file access and process execution live with the caller.

pub mod text;
pub mod table;
pub mod model;
pub mod expand;
pub mod paths;
pub mod depfile;
pub mod globfiles;
pub mod cache;
pub mod matcher;
pub mod engine;
