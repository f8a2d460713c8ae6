//! The bridge to an external rule engine.
//!
//! In a full deployment the external engine runs in a host runtime and is
//! reached through callbacks; here it is another collaborator whose answers
//! enter as data: what loading each plugin yielded, and what linting each
//! file yielded.

use vstd::prelude::*;

verus! {

/// What loading one external plugin yielded.
#[derive(Debug)]
pub enum PluginLoadResult {
    /// The plugin loaded: its name, the offset of its rules in the global
    /// rule table, and its rule names.
    Success { name: String, offset: usize, rule_names: Vec<String> },
    /// The plugin failed to load, with the reason.
    Failure(String),
}

/// A source range in the external engine's own encoding.
#[derive(Debug, Clone, Copy)]
pub struct Loc {
    pub start: u32,
    pub end: u32,
}

/// One diagnostic the external engine reports for a file.
#[derive(Debug)]
pub struct LintFileResult {
    /// Index of the rule that fired, within the rules the engine was asked
    /// to run.
    pub rule_index: u32,
    /// The diagnostic message.
    pub message: String,
    /// Where the diagnostic points.
    pub loc: Loc,
}

/// The external rule engine's recorded answers: what each plugin load
/// yielded, and what linting each path yielded.
#[derive(Debug)]
pub struct ExternalLinter {
    /// The plugin load results, in load order.
    pub load_plugin: Vec<PluginLoadResult>,
    /// Per path, the results of linting that path.
    pub lint_file: Vec<(String, Vec<LintFileResult>)>,
}

impl ExternalLinter {
    /// Bundles the external engine's answers.
    pub fn new(load_plugin: Vec<PluginLoadResult>, lint_file: Vec<(String, Vec<LintFileResult>)>)
        -> (e: ExternalLinter)
        ensures
            e.load_plugin == load_plugin,
            e.lint_file == lint_file,
    {
        ExternalLinter { load_plugin, lint_file }
    }
}

/// Metadata written at the end of a shared buffer so that the host runtime
/// can locate the data inside it.
#[derive(Debug, Clone, Copy, PartialEq, Eq, Structural)]
pub struct RawTransferMetadata {
    /// Offset of the data within the buffer.
    pub data_offset: u32,
    /// True when the buffer holds a TypeScript syntax tree.
    pub is_ts: bool,
}

impl RawTransferMetadata {
    /// Metadata for a buffer whose data starts at the given offset.
    pub fn new(data_offset: u32) -> (m: RawTransferMetadata)
        ensures
            m.data_offset == data_offset,
            !m.is_ts,
    {
        RawTransferMetadata { data_offset, is_ts: false }
    }
}

} // verus!
