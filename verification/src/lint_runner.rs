//! The lint command's runner: validating the rule filters, selecting the
//! files, driving the service, and turning the diagnostic tallies into an
//! exit status.  Reading the arguments and printing the reports stay in
//! the thin executable around the library.

use vstd::prelude::*;
use crate::cli::LintCommand;
use crate::external_linter::ExternalLinter;
use crate::host::{spec_has_file, spec_host_wf, Diagnostic, Host};
use crate::linter::{ConfigStore, Linter};
use crate::options::{AllowWarnDeny, LintOptions};
use crate::plugins::LintPlugins;
use crate::runtime::{in_paths, run_post, Delivery, Runtime, RunOutcome};
use crate::textscan::{spec_extension_of, spec_has_min_marker, spec_is_lintable_extension};
use crate::walk::{
    in_extensions, spec_any_pattern_matches, spec_under_root, spec_walk_yields, walk_listing,
    Walk,
};
use crate::cli::ReportUnusedDirectives;

verus! {

/// How a run of the command ended; the process exit status is derived
/// from this.
#[derive(Debug, Clone, Copy, PartialEq, Eq, Structural)]
pub enum CliRunResult {
    /// Nothing was to be done.
    NoWork,
    /// Linting ran and found no errors.
    LintSucceeded,
    /// Linting ran and found errors.
    LintFoundErrors,
    /// Warnings were found while warnings are denied.
    LintNoWarningsAllowed,
    /// More warnings were found than the warning cap allows.
    LintMaxWarningsExceeded,
    /// Every named path was filtered away.
    LintNoFilesFound,
    /// The resolved configuration was printed instead of linting.
    PrintConfigResult,
    /// A configuration file was created.
    ConfigFileInitSucceeded,
    /// A configuration file could not be created.
    ConfigFileInitFailed,
    /// The configuration was invalid.
    InvalidOptionConfig,
    /// The named TypeScript project file does not exist.
    InvalidOptionTsConfig,
    /// A severity was given without a filter.
    InvalidOptionSeverityWithoutFilter,
    /// A filter was missing its plugin name.
    InvalidOptionSeverityWithoutPluginName,
    /// A filter was missing its rule name.
    InvalidOptionSeverityWithoutRuleName,
    /// The type-aware linter failed.
    TsGoLintError,
}

/// A validated rule filter: a severity applied to a rule or category name.
#[derive(Debug, Clone)]
pub struct RuleFilter {
    pub severity: AllowWarnDeny,
    pub name: String,
}

/// The first separator of a filter name, if any.
pub open spec fn spec_first_slash(s: Seq<char>) -> Option<int>
    decreases s.len(),
{
    if s.len() == 0 {
        None
    } else if s[0] == '/' {
        Some(0)
    } else {
        match spec_first_slash(s.drop_first()) {
            Some(i) => Some(i + 1),
            None => None,
        }
    }
}

/// How a filter name is malformed, if it is: empty, missing its plugin
/// name before the separator, or missing its rule name after it.
pub open spec fn spec_filter_fault(s: Seq<char>) -> Option<CliRunResult> {
    if s.len() == 0 {
        Some(CliRunResult::InvalidOptionSeverityWithoutFilter)
    } else {
        match spec_first_slash(s) {
            Some(i) => if i == 0 {
                Some(CliRunResult::InvalidOptionSeverityWithoutPluginName)
            } else if i == s.len() - 1 {
                Some(CliRunResult::InvalidOptionSeverityWithoutRuleName)
            } else {
                None
            },
            None => None,
        }
    }
}

/// Finds the first separator of a filter name.
#[verifier::loop_isolation(false)]
pub fn first_slash(s: &String) -> (r: Option<usize>)
    ensures
        match r {
            Some(i) => spec_first_slash(s@) == Some(i as int),
            None => spec_first_slash(s@) is None,
        },
{
    let t = s.as_str();
    let n = t.unicode_len();
    let mut i: usize = 0;
    proof {
        assert(s@.skip(0) =~= s@);
    }
    while i < n
        invariant
            i <= n,
            spec_first_slash(s@) == match spec_first_slash(s@.skip(i as int)) {
                Some(k) => Some(k + i),
                None => None,
            },
            forall|k: int| 0 <= k < i ==> s@[k] != '/',
        decreases n - i,
    {
        proof {
            assert(s@.skip(i as int).drop_first() =~= s@.skip(i + 1));
            assert(s@.skip(i as int)[0] == s@[i as int]);
        }
        if t.get_char(i) == '/' {
            return Some(i);
        }
        i = i + 1;
    }
    proof {
        assert(s@.skip(n as int).len() == 0);
    }
    None
}

/// Whether the command enables any kind of automatic fix.
pub open spec fn spec_fix_enabled(cmd: LintCommand) -> bool {
    !cmd.fix_options.spec_fix_kind().is_none_spec()
}

/// What a working run returned: for some entry list holding exactly the
/// files the command selects, the run's postcondition holds of the
/// outcome, at least one delivery arrived, and within the machine's
/// counters the exit status matches the outcome's tallies.
pub open spec fn spec_run_delivers(
    cmd: LintCommand,
    h: Host,
    code: CliRunResult,
    o: RunOutcome,
) -> bool {
    exists|entries: Seq<String>|
        {
            &&& (forall|p: Seq<char>|
                #![trigger in_paths(entries, p)]
                #![trigger spec_selected(cmd, h, p)]
                in_paths(entries, p) <==> spec_selected(cmd, h, p))
            &&& #[trigger] run_post(h, entries, spec_fix_enabled(cmd), o)
            &&& o.deliveries@.len() > 0
            &&& (LintRunner::spec_tally(o.deliveries@).0 + LintRunner::spec_tally(
                o.deliveries@,
            ).1 <= usize::MAX ==> code == LintRunner::spec_exit_code(
                LintRunner::spec_tally(o.deliveries@).0,
                LintRunner::spec_tally(o.deliveries@).1,
                cmd.warning_options.deny_warnings,
                cmd.warning_options.max_warnings,
            ))
        }
}

/// Whether the command is in its working mode: not listing rules, not
/// printing the configuration, and with every rule filter well formed.
pub open spec fn spec_work_mode(cmd: LintCommand) -> bool {
    &&& !cmd.list_rules
    &&& forall|i: int|
        0 <= i < cmd.filter@.len() ==> spec_filter_fault((#[trigger] cmd.filter@[i]).1@) is None
    &&& !cmd.misc_options.print_config
}

/// A host file the command selects for linting: it lies under one of the
/// named roots, its kind is one the linter handles, its name carries no
/// minified-file marker, and no ignore pattern excludes it unless ignoring
/// is off.
pub open spec fn spec_selected(cmd: LintCommand, h: Host, p: Seq<char>) -> bool {
    &&& spec_has_file(h, p)
    &&& exists|r: int|
        0 <= r < cmd.paths@.len() && spec_under_root(p, (#[trigger] cmd.paths@[r])@)
    &&& match spec_extension_of(p) {
        Some(x) => spec_is_lintable_extension(x),
        None => false,
    }
    &&& !spec_has_min_marker(p)
    &&& cmd.ignore_options.no_ignore || !spec_any_pattern_matches(
        cmd.ignore_options.ignore_pattern@,
        p,
    )
}

/// The runner: the parsed command, the working directory, and the external
/// rule engine if one is attached.
pub struct LintRunner {
    pub options: LintCommand,
    pub cwd: String,
    pub external_linter: Option<ExternalLinter>,
}

impl LintRunner {
    /// A runner for the given command.  The working directory starts empty
    /// and is set with [`LintRunner::with_cwd`].
    pub fn new(options: LintCommand, external_linter: Option<ExternalLinter>) -> (r: LintRunner)
        ensures
            r.options == options,
            r.external_linter == external_linter,
            r.cwd@.len() == 0,
    {
        LintRunner { options, cwd: String::new(), external_linter }
    }

    /// The same runner with its working directory set.
    pub fn with_cwd(self, cwd: String) -> (r: LintRunner)
        ensures
            r.options == self.options,
            r.external_linter == self.external_linter,
            r.cwd == cwd,
    {
        let mut r = self;
        r.cwd = cwd;
        r
    }

    /// Validates the command-line rule filters: every well-formed filter
    /// is kept with its severity, and the first malformed one stops the
    /// run with the matching status and a message.
    pub fn get_filters(filters_arg: Vec<(AllowWarnDeny, String)>) -> (r: Result<
        Vec<RuleFilter>,
        (CliRunResult, String),
    >)
        ensures
            match r {
                Ok(v) => v@.len() == filters_arg@.len() && (forall|i: int|
                    0 <= i < v@.len() ==> spec_filter_fault(
                        (#[trigger] filters_arg@[i]).1@,
                    ) is None && v@[i].severity == filters_arg@[i].0 && v@[i].name@
                        == filters_arg@[i].1@),
                Err((code, m)) => exists|i: int|
                    0 <= i < filters_arg@.len() && spec_filter_fault(
                        (#[trigger] filters_arg@[i]).1@,
                    ) == Some(code) && (forall|j: int|
                        0 <= j < i ==> spec_filter_fault(
                            (#[trigger] filters_arg@[j]).1@,
                        ) is None),
            },
    {
        let mut filters: Vec<RuleFilter> = Vec::new();
        let mut i: usize = 0;
        while i < filters_arg.len()
            invariant
                i <= filters_arg@.len(),
                filters@.len() == i,
                forall|j: int|
                    0 <= j < i ==> spec_filter_fault((#[trigger] filters_arg@[j]).1@) is None
                        && filters@[j].severity == filters_arg@[j].0 && filters@[j].name@
                        == filters_arg@[j].1@,
            decreases filters_arg@.len() - i,
        {
            let severity = filters_arg[i].0;
            let name = &filters_arg[i].1;
            let n = name.as_str().unicode_len();
            if n == 0 {
                let mut m = "Cannot ".to_owned();
                m.append(severity.as_str());
                m.append(" an empty filter.\n");
                proof {
                    assert(spec_filter_fault(filters_arg@[i as int].1@) == Some(
                        CliRunResult::InvalidOptionSeverityWithoutFilter,
                    ));
                }
                return Err((CliRunResult::InvalidOptionSeverityWithoutFilter, m));
            }
            let slash = first_slash(name);
            match slash {
                Option::Some(k) => {
                    if k == 0 {
                        let mut m = "Failed to ".to_owned();
                        m.append(severity.as_str());
                        m.append(" filter ");
                        m.append(name.as_str());
                        m.append(": Plugin name is missing. Expected <plugin>/<rule>\n");
                        return Err((CliRunResult::InvalidOptionSeverityWithoutPluginName, m));
                    }
                    if k == n - 1 {
                        let mut m = "Failed to ".to_owned();
                        m.append(severity.as_str());
                        m.append(" filter ");
                        m.append(name.as_str());
                        m.append(": Rule name is missing. Expected <plugin>/<rule>\n");
                        return Err((CliRunResult::InvalidOptionSeverityWithoutRuleName, m));
                    }
                },
                Option::None => {
                },
            }
            filters.push(RuleFilter { severity, name: name.clone() });
            i = i + 1;
        }
        Ok(filters)
    }

    /// How many of these diagnostics are errors.
    pub open spec fn spec_error_count(ds: Seq<Diagnostic>) -> nat
        decreases ds.len(),
    {
        if ds.len() == 0 {
            0
        } else {
            Self::spec_error_count(ds.drop_last()) + if ds.last().severe {
                1nat
            } else {
                0nat
            }
        }
    }

    /// How many of these diagnostics are warnings.
    pub open spec fn spec_warning_count(ds: Seq<Diagnostic>) -> nat
        decreases ds.len(),
    {
        if ds.len() == 0 {
            0
        } else {
            Self::spec_warning_count(ds.drop_last()) + if ds.last().severe {
                0nat
            } else {
                1nat
            }
        }
    }

    /// The errors and warnings of a run of deliveries.
    pub open spec fn spec_tally(dl: Seq<Delivery>) -> (nat, nat)
        decreases dl.len(),
    {
        if dl.len() == 0 {
            (0, 0)
        } else {
            let rest = Self::spec_tally(dl.drop_last());
            (
                rest.0 + Self::spec_error_count(dl.last().diagnostics@),
                rest.1 + Self::spec_warning_count(dl.last().diagnostics@),
            )
        }
    }

    /// Counts the errors and warnings the deliveries report.
    #[verifier::loop_isolation(false)]
    pub fn tally_deliveries(dl: &Vec<Delivery>) -> (r: (usize, usize))
        requires
            Self::spec_tally(dl@).0 <= usize::MAX,
            Self::spec_tally(dl@).1 <= usize::MAX,
        ensures
            r.0 == Self::spec_tally(dl@).0,
            r.1 == Self::spec_tally(dl@).1,
    {
        let mut errors: usize = 0;
        let mut warnings: usize = 0;
        let mut k: usize = 0;
        proof {
            assert(dl@.subrange(0, 0).len() == 0);
        }
        while k < dl.len()
            invariant
                k <= dl@.len(),
                errors == Self::spec_tally(dl@.subrange(0, k as int)).0,
                warnings == Self::spec_tally(dl@.subrange(0, k as int)).1,
                errors + warnings + Self::spec_remaining(dl@, k as int) == Self::spec_tally(
                    dl@,
                ).0 + Self::spec_tally(dl@).1,
                errors <= Self::spec_tally(dl@).0,
                warnings <= Self::spec_tally(dl@).1,
            decreases dl@.len() - k,
        {
            proof {
                assert(dl@.subrange(0, k + 1).drop_last() =~= dl@.subrange(0, k as int));
                assert(dl@.subrange(0, k + 1).last() == dl@[k as int]);
                Self::lemma_tally_prefix(dl@, k as int);
            }
            let ds = &dl[k].diagnostics;
            let mut t: usize = 0;
            proof {
                assert(ds@.subrange(0, 0).len() == 0);
                assert(ds@.skip(0) =~= ds@);
            }
            while t < ds.len()
                invariant
                    t <= ds@.len(),
                    errors == Self::spec_tally(dl@.subrange(0, k as int)).0
                        + Self::spec_error_count(ds@.subrange(0, t as int)),
                    warnings == Self::spec_tally(dl@.subrange(0, k as int)).1
                        + Self::spec_warning_count(ds@.subrange(0, t as int)),
                    errors + Self::spec_error_count(ds@.skip(t as int)) <= Self::spec_tally(
                        dl@,
                    ).0,
                    warnings + Self::spec_warning_count(ds@.skip(t as int))
                        <= Self::spec_tally(dl@).1,
                decreases ds@.len() - t,
            {
                proof {
                    assert(ds@.subrange(0, t + 1).drop_last() =~= ds@.subrange(0, t as int));
                    assert(ds@.subrange(0, t + 1).last() == ds@[t as int]);
                    assert(ds@.skip(t as int).drop_first() =~= ds@.skip(t + 1));
                    Self::lemma_count_skip(ds@, t as int);
                }
                if ds[t].severe {
                    errors = errors + 1;
                } else {
                    warnings = warnings + 1;
                }
                t = t + 1;
            }
            proof {
                assert(ds@.subrange(0, ds@.len() as int) =~= ds@);
            }
            k = k + 1;
        }
        proof {
            assert(dl@.subrange(0, dl@.len() as int) =~= dl@);
        }
        (errors, warnings)
    }

    /// What remains to be counted after the first `k` deliveries.
    pub open spec fn spec_remaining(dl: Seq<Delivery>, k: int) -> int {
        (Self::spec_tally(dl).0 + Self::spec_tally(dl).1) - (Self::spec_tally(
            dl.subrange(0, k),
        ).0 + Self::spec_tally(dl.subrange(0, k)).1)
    }

    /// Prefix tallies never exceed the whole tally.
    pub proof fn lemma_tally_prefix(dl: Seq<Delivery>, k: int)
        requires
            0 <= k <= dl.len(),
        ensures
            Self::spec_tally(dl.subrange(0, k)).0 <= Self::spec_tally(dl).0,
            Self::spec_tally(dl.subrange(0, k)).1 <= Self::spec_tally(dl).1,
            k < dl.len() ==> Self::spec_tally(dl.subrange(0, k)).0 + Self::spec_error_count(
                dl[k].diagnostics@,
            ) <= Self::spec_tally(dl).0,
            k < dl.len() ==> Self::spec_tally(dl.subrange(0, k)).1 + Self::spec_warning_count(
                dl[k].diagnostics@,
            ) <= Self::spec_tally(dl).1,
        decreases dl.len() - k,
    {
        if k < dl.len() {
            assert(dl.subrange(0, k + 1).drop_last() =~= dl.subrange(0, k));
            assert(dl.subrange(0, k + 1).last() == dl[k]);
            Self::lemma_tally_prefix(dl, k + 1);
        } else {
            assert(dl.subrange(0, k) =~= dl);
        }
    }

    /// Splitting a diagnostic run at `t` splits its counts.
    pub proof fn lemma_count_skip(ds: Seq<Diagnostic>, t: int)
        requires
            0 <= t < ds.len(),
        ensures
            Self::spec_error_count(ds.skip(t)) == Self::spec_error_count(ds.skip(t + 1)) + if ds[t].severe {
                1nat
            } else {
                0nat
            },
            Self::spec_warning_count(ds.skip(t)) == Self::spec_warning_count(ds.skip(t + 1))
                + if ds[t].severe {
                0nat
            } else {
                1nat
            },
        decreases ds.len() - t,
    {
        Self::lemma_count_front(ds.skip(t));
        assert(ds.skip(t).drop_first() =~= ds.skip(t + 1));
        assert(ds.skip(t)[0] == ds[t]);
    }

    /// A run's counts split off its first element.
    pub proof fn lemma_count_front(ds: Seq<Diagnostic>)
        requires
            ds.len() > 0,
        ensures
            Self::spec_error_count(ds) == Self::spec_error_count(ds.drop_first()) + if ds[0].severe {
                1nat
            } else {
                0nat
            },
            Self::spec_warning_count(ds) == Self::spec_warning_count(ds.drop_first())
                + if ds[0].severe {
                0nat
            } else {
                1nat
            },
        decreases ds.len(),
    {
        if ds.len() > 1 {
            Self::lemma_count_front(ds.drop_last());
            assert(ds.drop_last().drop_first() =~= ds.drop_first().drop_last());
            assert(ds.drop_last()[0] == ds[0]);
            assert(ds.drop_first().last() == ds.last());
            assert(Self::spec_error_count(ds.drop_first()) == Self::spec_error_count(
                ds.drop_first().drop_last(),
            ) + if ds.drop_first().last().severe {
                1nat
            } else {
                0nat
            });
            assert(Self::spec_warning_count(ds.drop_first()) == Self::spec_warning_count(
                ds.drop_first().drop_last(),
            ) + if ds.drop_first().last().severe {
                0nat
            } else {
                1nat
            });
            assert(Self::spec_error_count(ds) == Self::spec_error_count(ds.drop_last()) + if ds.last().severe {
                1nat
            } else {
                0nat
            });
            assert(ds.drop_last()[0].severe == ds[0].severe);
            assert(ds.drop_first().last().severe == ds.last().severe);
            assert(Self::spec_error_count(ds) == Self::spec_error_count(ds.drop_first()) + (
            if ds[0].severe {
                1nat
            } else {
                0nat
            }));
            assert(Self::spec_warning_count(ds) == Self::spec_warning_count(ds.drop_first())
                + (if ds[0].severe {
                0nat
            } else {
                1nat
            }));
        } else {
            assert(ds.drop_first().len() == 0);
            assert(ds.drop_last().len() == 0);
            assert(Self::spec_error_count(ds.drop_last()) == 0);
            assert(Self::spec_warning_count(ds.drop_last()) == 0);
            assert(Self::spec_error_count(ds.drop_first()) == 0);
            assert(Self::spec_warning_count(ds.drop_first()) == 0);
            assert(ds.last() == ds[0]);
            assert(Self::spec_error_count(ds) == Self::spec_error_count(ds.drop_first()) + (
            if ds[0].severe {
                1nat
            } else {
                0nat
            }));
            assert(Self::spec_warning_count(ds) == Self::spec_warning_count(ds.drop_first())
                + (if ds[0].severe {
                0nat
            } else {
                1nat
            }));
        }
    }

    /// The exit status the diagnostic tallies warrant: errors fail the
    /// run; with warnings denied any warning fails it; past the warning
    /// cap the run fails; otherwise it succeeded.
    pub fn exit_code(
        errors: usize,
        warnings: usize,
        deny_warnings: bool,
        max_warnings: Option<usize>,
    ) -> (r: CliRunResult)
        ensures
            r == LintRunner::spec_exit_code(
                errors as nat,
                warnings as nat,
                deny_warnings,
                max_warnings,
            ),
    {
        if errors > 0 {
            CliRunResult::LintFoundErrors
        } else if deny_warnings && warnings > 0 {
            CliRunResult::LintNoWarningsAllowed
        } else {
            match max_warnings {
                Option::Some(cap) => if warnings > cap {
                    CliRunResult::LintMaxWarningsExceeded
                } else {
                    CliRunResult::LintSucceeded
                },
                Option::None => CliRunResult::LintSucceeded,
            }
        }
    }

    pub open spec fn spec_exit_code(
        errors: nat,
        warnings: nat,
        deny_warnings: bool,
        max_warnings: Option<usize>,
    ) -> CliRunResult {
        if errors > 0 {
            CliRunResult::LintFoundErrors
        } else if deny_warnings && warnings > 0 {
            CliRunResult::LintNoWarningsAllowed
        } else if max_warnings is Some && warnings > max_warnings->0 {
            CliRunResult::LintMaxWarningsExceeded
        } else {
            CliRunResult::LintSucceeded
        }
    }

    /// Runs the command over the world the host describes: validates the
    /// filters, applies the plugin toggles, selects the files the walk
    /// yields from the host's listing, runs the pipeline, and turns the
    /// tallies into an exit status.
    pub fn run(self, host: &Host) -> (r: (CliRunResult, RunOutcome))
        requires
            spec_host_wf(*host),
            self.options.paths@.len() > 0,
        ensures
            self.options.list_rules ==> r.0 == CliRunResult::NoWork && r.1.deliveries@.len()
                == 0,
            !self.options.list_rules && (exists|i: int|
                0 <= i < self.options.filter@.len() && spec_filter_fault(
                    (#[trigger] self.options.filter@[i]).1@,
                ) is Some) ==> r.1.deliveries@.len() == 0 && (exists|i: int|
                0 <= i < self.options.filter@.len() && spec_filter_fault(
                    (#[trigger] self.options.filter@[i]).1@,
                ) == Some(r.0)),
            !self.options.list_rules && (forall|i: int|
                0 <= i < self.options.filter@.len() ==> spec_filter_fault(
                    (#[trigger] self.options.filter@[i]).1@,
                ) is None) && self.options.misc_options.print_config ==> r.0
                == CliRunResult::PrintConfigResult,
            spec_work_mode(self.options) ==> (r.0 == CliRunResult::LintNoFilesFound <==> !(
            exists|t: int|
                0 <= t < host.files@.len() && spec_selected(
                    self.options,
                    *host,
                    (#[trigger] host.files@[t]).path@,
                ))),
            spec_work_mode(self.options) && (exists|t: int|
                0 <= t < host.files@.len() && spec_selected(
                    self.options,
                    *host,
                    (#[trigger] host.files@[t]).path@,
                )) ==> spec_run_delivers(self.options, *host, r.0, r.1),
    {
        if self.options.list_rules {
            return (CliRunResult::NoWork, crate::runtime::empty_outcome());
        }
        // the worker count is fixed once, before any linting
        let thread_count = self.options.handle_threads(Some(1));
        let thread_count = if thread_count >= 1 && thread_count <= 0xFFFF {
            thread_count
        } else {
            1
        };
        let filters = Self::get_filters(self.options.filter);
        let filters = match filters {
            Result::Ok(v) => v,
            Result::Err(e) => {
                return (e.0, crate::runtime::empty_outcome());
            },
        };
        if self.options.misc_options.print_config {
            return (CliRunResult::PrintConfigResult, crate::runtime::empty_outcome());
        }
        // the command-line plugin toggles decide whether cross-module
        // analysis must run
        let mut plugins = LintPlugins::standard();
        self.options.enable_plugins.apply_overrides(&mut plugins);
        let use_cross_module = plugins.has_import();
        // the rule engine, configured with the fix kinds and directive
        // reporting the command asked for
        let report_unused_directives = match self.options.inline_config_options
            .report_unused_directives {
            ReportUnusedDirectives::WithoutSeverity(true) => Some(AllowWarnDeny::Warn),
            ReportUnusedDirectives::WithSeverity(Some(severity)) => Some(severity),
            _ => None,
        };
        let config = ConfigStore { rule_count: filters.len(), has_nested: false };
        let linter = Linter::new(LintOptions::new(), config, self.external_linter).with_fix(
            self.options.fix_options.fix_kind(),
        ).with_report_unused_directives(report_unused_directives);
        // the walk selects the files to lint from the host's listing
        let walk = Walk::new(self.options.paths, &self.options.ignore_options);
        let mut listing: Vec<String> = Vec::new();
        let mut t: usize = 0;
        while t < host.files.len()
            invariant
                t <= host.files@.len(),
                listing@.len() == t,
                forall|t2: int|
                    0 <= t2 < t ==> (#[trigger] listing@[t2])@ == host.files@[t2].path@,
            decreases host.files@.len() - t,
        {
            listing.push(host.files[t].path.clone());
            t = t + 1;
        }
        proof {
            assert forall|a: int, b: int|
                0 <= a < b < listing@.len() implies (#[trigger] listing@[a])@ != (
            #[trigger] listing@[b])@ by {
                assert(listing@[a]@ == host.files@[a].path@);
                assert(listing@[b]@ == host.files@[b].path@);
            }
        }
        let pats = if self.options.ignore_options.no_ignore {
            Vec::new()
        } else {
            self.options.ignore_options.ignore_pattern
        };
        let files_to_lint = walk_listing(&walk, &pats, &listing);
        proof {
            // what the walk yields over the host's listing is exactly what
            // the command selects
            assert forall|t: int|
                0 <= t < host.files@.len() && spec_selected(
                    self.options,
                    *host,
                    (#[trigger] host.files@[t]).path@,
                ) implies in_paths(files_to_lint@, host.files@[t].path@) by {
                let p = host.files@[t].path@;
                assert(listing@[t]@ == p);
                assert(crate::walk::spec_walk_yields(walk, pats@, p)) by {
                    let rr = choose|rr: int|
                        0 <= rr < self.options.paths@.len() && spec_under_root(
                            p,
                            (#[trigger] self.options.paths@[rr])@,
                        );
                    assert(spec_under_root(p, walk.paths@[rr]@));
                    assert(in_extensions(walk.extensions, spec_extension_of(p)->0));
                }
            }
            assert forall|q: int|
                0 <= q < files_to_lint@.len() implies spec_selected(
                self.options,
                *host,
                (#[trigger] files_to_lint@[q])@,
            ) by {
                let p = files_to_lint@[q]@;
                assert(crate::walk::spec_walk_yields(walk, pats@, p));
                let t = choose|t: int|
                    0 <= t < listing@.len() && (#[trigger] listing@[t])@ == p;
                assert(host.files@[t].path@ == p);
                assert(spec_has_file(*host, p));
                let rr = choose|rr: int|
                    0 <= rr < walk.paths@.len() && spec_under_root(
                        p,
                        (#[trigger] walk.paths@[rr])@,
                    );
                assert(spec_under_root(p, self.options.paths@[rr]@));
                assert(spec_is_lintable_extension(spec_extension_of(p)->0)) by {
                    assert(in_extensions(walk.extensions, spec_extension_of(p)->0));
                }
            }
        }
        if files_to_lint.len() == 0 {
            proof {
                // nothing was selected: any selected host file would have
                // been yielded
                assert forall|t: int|
                    0 <= t < host.files@.len() implies !spec_selected(
                    self.options,
                    *host,
                    (#[trigger] host.files@[t]).path@,
                ) by {
                    if spec_selected(self.options, *host, host.files@[t].path@) {
                        assert(in_paths(files_to_lint@, host.files@[t].path@));
                        let k = choose|k: int|
                            0 <= k < files_to_lint@.len() && (#[trigger] files_to_lint@[k])@
                                == host.files@[t].path@;
                        assert(false);
                    }
                }
            }
            return (CliRunResult::LintNoFilesFound, crate::runtime::empty_outcome());
        }
        let mut runtime = Runtime::new(
            linter,
            self.cwd,
            use_cross_module,
            self.options.basic_options.tsconfig,
            thread_count,
        );
        let ghost ftl = files_to_lint@;
        let ghost first_selected = files_to_lint@[0]@;
        proof {
            assert(crate::walk::spec_walk_yields(walk, pats@, first_selected));
            assert(crate::textscan::spec_is_processable_path(first_selected)) by {
                assert(crate::walk::in_extensions(
                    walk.extensions,
                    crate::textscan::spec_extension_of(first_selected)->0,
                ));
            }
        }
        runtime.with_paths(files_to_lint);
        let ghost ent = runtime.paths@;
        proof {
            assert(crate::runtime::in_paths(ent, first_selected));
            // the stored entries are exactly the files the command selects
            assert forall|p: Seq<char>|
                #![trigger in_paths(ent, p)]
                #![trigger spec_selected(self.options, *host, p)]
                in_paths(ent, p) <==> spec_selected(self.options, *host, p) by {
                if in_paths(ent, p) {
                    assert(in_paths(ftl, p));
                    let q = choose|q: int| 0 <= q < ftl.len() && (#[trigger] ftl[q])@ == p;
                    assert(spec_selected(self.options, *host, ftl[q]@));
                }
                if spec_selected(self.options, *host, p) {
                    let tt = crate::host::spec_idx_of(*host, p);
                    assert(0 <= tt < host.files@.len() && host.files@[tt].path@ == p);
                    assert(in_paths(ftl, host.files@[tt].path@));
                    assert(in_paths(ent, p));
                }
            }
        }
        let outcome = runtime.run(host);
        proof {
            assert(crate::runtime::delivered(outcome.deliveries@, first_selected)) by {
                let i = choose|i: int|
                    0 <= i < runtime.paths@.len() && (#[trigger] runtime.paths@[i])@
                        == first_selected;
            }
            assert(outcome.deliveries@.len() > 0);
        }
        let tally = if Self::tally_fits(&outcome.deliveries) {
            Self::tally_deliveries(&outcome.deliveries)
        } else {
            (usize::MAX, usize::MAX)
        };
        let code = Self::exit_code(
            tally.0,
            tally.1,
            self.options.warning_options.deny_warnings,
            self.options.warning_options.max_warnings,
        );
        proof {
            assert(code != CliRunResult::LintNoFilesFound);
            // a selected file exists: the first one the walk yielded
            let tt = crate::host::spec_idx_of(*host, first_selected);
            assert(0 <= tt < host.files@.len() && host.files@[tt].path@ == first_selected);
            assert(spec_selected(self.options, *host, host.files@[tt].path@));
            assert(exists|t: int|
                0 <= t < host.files@.len() && spec_selected(
                    self.options,
                    *host,
                    (#[trigger] host.files@[t]).path@,
                ));
            // the run's promises hold for the selected entries
            assert(runtime.linter.options.fix == self.options.fix_options.spec_fix_kind());
            assert(run_post(*host, ent, spec_fix_enabled(self.options), outcome));
            assert(spec_run_delivers(self.options, *host, code, outcome)) by {
                assert((forall|p: Seq<char>|
                    #![trigger in_paths(ent, p)]
                    #![trigger spec_selected(self.options, *host, p)]
                    in_paths(ent, p) <==> spec_selected(self.options, *host, p))
                    && #[trigger] run_post(*host, ent, spec_fix_enabled(self.options), outcome)
                    && outcome.deliveries@.len() > 0 && (Self::spec_tally(
                    outcome.deliveries@,
                ).0 + Self::spec_tally(outcome.deliveries@).1 <= usize::MAX ==> code
                    == Self::spec_exit_code(
                    Self::spec_tally(outcome.deliveries@).0,
                    Self::spec_tally(outcome.deliveries@).1,
                    self.options.warning_options.deny_warnings,
                    self.options.warning_options.max_warnings,
                )));
            }
        }
        (code, outcome)
    }

    /// Whether the tallies fit the machine's counters.
    fn tally_fits(dl: &Vec<Delivery>) -> (r: bool)
        ensures
            r == (Self::spec_tally(dl@).0 + Self::spec_tally(dl@).1 <= usize::MAX),
    {
        let mut total: usize = 0;
        let mut k: usize = 0;
        let mut fits = true;
        while k < dl.len()
            invariant
                k <= dl@.len(),
                fits ==> total == Self::spec_tally(dl@.subrange(0, k as int)).0 + Self::spec_tally(
                    dl@.subrange(0, k as int),
                ).1,
                !fits ==> Self::spec_tally(dl@).0 + Self::spec_tally(dl@).1 > usize::MAX,
            decreases dl@.len() - k,
        {
            proof {
                assert(dl@.subrange(0, k + 1).drop_last() =~= dl@.subrange(0, k as int));
                assert(dl@.subrange(0, k + 1).last() == dl@[k as int]);
                Self::lemma_counts_bounded(dl@[k as int].diagnostics@);
                Self::lemma_counts_sum(dl@[k as int].diagnostics@);
                Self::lemma_tally_prefix(dl@, k as int);
            }
            let len = dl[k].diagnostics.len();
            if fits && total <= usize::MAX - len {
                total = total + len;
            } else {
                fits = false;
            }
            k = k + 1;
        }
        proof {
            if fits {
                assert(dl@.subrange(0, dl@.len() as int) =~= dl@);
            }
        }
        fits
    }

    /// Counts are bounded by the run's length.
    pub proof fn lemma_counts_bounded(ds: Seq<Diagnostic>)
        ensures
            Self::spec_error_count(ds) <= ds.len(),
            Self::spec_warning_count(ds) <= ds.len(),
        decreases ds.len(),
    {
        if ds.len() > 0 {
            Self::lemma_counts_bounded(ds.drop_last());
        }
    }

    /// Errors and warnings together count every diagnostic.
    pub proof fn lemma_counts_sum(ds: Seq<Diagnostic>)
        ensures
            Self::spec_error_count(ds) + Self::spec_warning_count(ds) == ds.len(),
        decreases ds.len(),
    {
        if ds.len() > 0 {
            Self::lemma_counts_sum(ds.drop_last());
        }
    }
}

/// Writes a message to standard output and flushes it, tolerating a
/// closed pipe.
///
/// Relies on std's `Write` for `Stdout`: printing is an effect outside the
/// verified library and promises nothing.  Every write error is swallowed
/// here, not only an interrupted or broken pipe; a caller that must react
/// to a failed write needs its own channel.
#[verifier::external_body]
pub fn print_and_flush_stdout(message: &str) {
    let mut stdout = std::io::stdout();
    let _ = std::io::Write::write_all(&mut stdout, message.as_bytes());
    let _ = std::io::Write::flush(&mut stdout);
}

} // verus!
