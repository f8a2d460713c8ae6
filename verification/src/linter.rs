//! The linter: options, the resolved rule configuration, and the run over
//! one file's sections.
//!
//! The rules themselves are a black box; what they report for each section
//! arrives as data in the host.  The linter's verified duty is what the
//! scheduler relies on: report exactly the diagnostics of the sections that
//! parsed, in section order.

use vstd::prelude::*;
use crate::external_linter::ExternalLinter;
use crate::host::{copy_diags, diag_views, lint_views_from, Diagnostic, HostSection};
use crate::options::{AllowWarnDeny, FixKind, LintOptions};

verus! {

/// The resolved rule configuration of a run.
#[derive(Debug)]
pub struct ConfigStore {
    /// How many rules the configuration enables.
    pub rule_count: usize,
    /// Whether nested configuration files are in use, in which case the
    /// rule count depends on the file being linted.
    pub has_nested: bool,
}

/// The linter: options and configuration around the black-box rule engine.
#[derive(Debug)]
pub struct Linter {
    pub options: LintOptions,
    pub config: ConfigStore,
    pub external_linter: Option<ExternalLinter>,
}

impl Linter {
    /// Builds a linter from options, a configuration, and optionally an
    /// external rule engine.
    pub fn new(options: LintOptions, config: ConfigStore, external_linter: Option<ExternalLinter>)
        -> (l: Linter)
        ensures
            l.options == options,
            l.config == config,
            l.external_linter == external_linter,
    {
        Linter { options, config, external_linter }
    }

    /// Sets the kind of automatic fixes to apply.
    pub fn with_fix(self, kind: FixKind) -> (l: Linter)
        ensures
            l.options.fix == kind,
            l.options.report_unused_directive == self.options.report_unused_directive,
            l.config == self.config,
            l.external_linter == self.external_linter,
    {
        let mut l = self;
        l.options.fix = kind;
        l
    }

    /// Sets whether unused disable directives are reported, and at which
    /// severity.
    pub fn with_report_unused_directives(self, report_config: Option<AllowWarnDeny>) -> (l: Linter)
        ensures
            l.options.report_unused_directive == report_config,
            l.options.fix == self.options.fix,
            l.config == self.config,
            l.external_linter == self.external_linter,
    {
        let mut l = self;
        l.options.report_unused_directive = report_config;
        l
    }

    /// The linter's options.
    pub fn options(&self) -> (o: &LintOptions)
        ensures
            o == self.options,
    {
        &self.options
    }

    /// The number of rules in use, unless nested configurations make that
    /// depend on the file being linted.
    pub fn number_of_rules(&self, type_aware: bool) -> (r: Option<usize>)
        ensures
            r == if self.config.has_nested {
                Option::<usize>::None
            } else {
                Option::<usize>::Some(self.config.rule_count)
            },
    {
        if self.config.has_nested {
            None
        } else {
            Some(self.config.rule_count)
        }
    }

    /// Runs the rule engine over one file's sections: the result is exactly
    /// the diagnostics of every section that parsed, in section order.
    pub fn run(&self, path: &String, sections: &Vec<HostSection>) -> (msgs: Vec<Diagnostic>)
        ensures
            diag_views(msgs@) == lint_views_from(sections@),
    {
        let mut msgs: Vec<Diagnostic> = Vec::new();
        let mut j: usize = 0;
        proof {
            assert(diag_views(msgs@) =~= lint_views_from(sections@.subrange(0, 0)));
        }
        while j < sections.len()
            invariant
                j <= sections@.len(),
                diag_views(msgs@) == lint_views_from(sections@.subrange(0, j as int)),
            decreases sections@.len() - j,
        {
            proof {
                assert(sections@.subrange(0, j + 1).drop_last() =~= sections@.subrange(
                    0,
                    j as int,
                ));
                assert(sections@.subrange(0, j + 1).last() == sections@[j as int]);
            }
            if sections[j].parse_errors.len() == 0 {
                copy_diags(&mut msgs, &sections[j].diagnostics);
            }
            proof {
                assert(diag_views(msgs@) =~= lint_views_from(sections@.subrange(0, j + 1)));
            }
            j = j + 1;
        }
        proof {
            assert(sections@.subrange(0, sections@.len() as int) =~= sections@);
        }
        msgs
    }
}

/// Why building the rule configuration failed.
#[derive(Debug)]
pub enum ConfigBuilderError {
    /// Rules were named that no known plugin provides.
    UnknownRules { rules: Vec<String> },
    /// A referenced configuration file is invalid.
    InvalidConfigFile { file: String, reason: String },
    /// An external plugin failed to load.
    PluginLoadFailed { plugin_specifier: String, error: String },
    /// An external rule could not be looked up.
    ExternalRuleLookupError(String),
    /// The configuration needs an external rule engine, but none is
    /// attached.
    NoExternalLinterConfigured,
}

impl ConfigBuilderError {
    /// A short description of the failure, for reports.
    pub fn describe(&self) -> (m: &'static str)
        ensures
            (self is UnknownRules) ==> m@ == "unknown rules"@,
            (self is InvalidConfigFile) ==> m@ == "invalid config file"@,
            (self is PluginLoadFailed) ==> m@ == "plugin load failed"@,
            (self is ExternalRuleLookupError) ==> m@ == "external rule lookup failed"@,
            (self is NoExternalLinterConfigured) ==> m@ == "no external linter configured"@,
    {
        match self {
            ConfigBuilderError::UnknownRules { .. } => "unknown rules",
            ConfigBuilderError::InvalidConfigFile { .. } => "invalid config file",
            ConfigBuilderError::PluginLoadFailed { .. } => "plugin load failed",
            ConfigBuilderError::ExternalRuleLookupError(_) => "external rule lookup failed",
            ConfigBuilderError::NoExternalLinterConfigured => "no external linter configured",
        }
    }
}

} // verus!
