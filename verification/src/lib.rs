#![verifier::loop_isolation(false)]
//! A verified model of a parallel lint scheduler and its arena-allocator pool.
//!
//! The crate models the core of a high-throughput source linter: a pool of
//! large fixed-size bump allocators handed out under exclusive checkouts, and
//! a wave-based module-graph scheduler that parses files, discovers their
//! imports, links a persistent module graph, runs a rule engine over every
//! entry file, applies fixes with at most one write per file, and emits one
//! diagnostic delivery per entry.  Parsing, import resolution and the rules
//! themselves are external collaborators; they enter the scheduler as plain
//! data, so every scheduling decision here is verified.

pub mod cli;
pub mod external_linter;
pub mod host;
pub mod lint_runner;
pub mod linter;
pub mod options;
pub mod patterns;
pub mod plugins;
pub mod pool;
pub mod runtime;
pub mod service;
pub mod textscan;
pub mod walk;

use vstd::prelude::*;

verus! {

} // verus!
