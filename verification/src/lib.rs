//! Compiler diagnostics for self-hosting languages that target LLVM: an LLVM IR
//! reader, a C source reader, and a pattern engine that runs declarative bug
//! templates over IR.
use vstd::prelude::*;

pub mod text;
pub mod rx;
pub mod ir;
pub mod c_parser;
pub mod layout;
pub mod baseline;
pub mod eval;
pub mod diagnose;
pub mod cli;
pub mod metrics;
pub mod session;
pub mod fix;
pub mod callgraph;
pub mod cfg;
pub mod probe;
pub mod schema;
pub mod engine;
pub mod loader;
pub mod report;
pub mod index_audit;
pub mod binary;
pub mod triage;
pub mod health;
pub mod trace;
pub mod order;
pub mod missing_types;
pub mod summary;
pub mod learn;
pub mod stages;
pub mod abi;
pub mod pretty;
pub mod dump;
pub mod fingerprint;
pub mod workflow;
pub mod journal;
pub mod project;
pub mod laws;

verus! {

} // verus!
