//! The lint command's option surface: the option groups, the three-state
//! plugin toggles, and the decisions made directly from them.
//!
//! Parsing the raw argument list into these types, like reading it from
//! the process environment, is left to the thin executable around the
//! library; the decisions made from the parsed options are verified here.

use vstd::prelude::*;
use crate::options::{AllowWarnDeny, FixKind, OutputFormat};
use crate::plugins::{BuiltinPluginKind, LintPlugins};

verus! {

/// Basic configuration options: the configuration file, the TypeScript
/// project file, and configuration-file initialisation.
#[derive(Debug, Clone)]
pub struct BasicOptions {
    /// Path of the lint configuration file, when given explicitly.
    pub config: Option<String>,
    /// Path of a TypeScript project file for path aliases and references.
    pub tsconfig: Option<String>,
    /// Create a default configuration file and exit.
    pub init: bool,
}

/// One rule filter from the command line: allow, warn on, or deny a rule or
/// category name.
#[derive(Debug, Clone)]
pub enum LintFilter {
    Allow(String),
    Warn(String),
    Deny(String),
}

impl LintFilter {
    /// The severity and name this filter carries.
    pub fn into_tuple(self) -> (r: (AllowWarnDeny, String))
        ensures
            r == self.spec_tuple(),
    {
        match self {
            LintFilter::Allow(s) => (AllowWarnDeny::Allow, s),
            LintFilter::Warn(s) => (AllowWarnDeny::Warn, s),
            LintFilter::Deny(s) => (AllowWarnDeny::Deny, s),
        }
    }

    pub open spec fn spec_tuple(self) -> (AllowWarnDeny, String) {
        match self {
            LintFilter::Allow(s) => (AllowWarnDeny::Allow, s),
            LintFilter::Warn(s) => (AllowWarnDeny::Warn, s),
            LintFilter::Deny(s) => (AllowWarnDeny::Deny, s),
        }
    }
}

/// The automatic-fix options.
#[derive(Debug, Clone, Copy)]
pub struct FixOptions {
    /// Apply fixes that are safe: they never change program behaviour.
    pub fix: bool,
    /// Apply suggestions, which may change program behaviour.
    pub fix_suggestions: bool,
    /// Apply dangerous fixes and suggestions as well.
    pub fix_dangerously: bool,
}

impl FixOptions {
    /// The kinds of fixes these options select.
    pub open spec fn spec_fix_kind(self) -> FixKind {
        FixKind {
            fix: self.fix || (self.fix_dangerously && !self.fix && !self.fix_suggestions),
            suggestion: self.fix_suggestions,
            dangerous: self.fix_dangerously,
        }
    }

    /// Combines the three flags into the fix kinds to apply: the safe-fix
    /// and suggestion flags each enable their kind, and the dangerous flag
    /// enables plain fixes when nothing else was asked for, and marks the
    /// run dangerous.
    pub fn fix_kind(&self) -> (k: FixKind)
        ensures
            k == self.spec_fix_kind(),
    {
        let mut kind = FixKind::none();
        if self.fix {
            kind.fix = true;
        }
        if self.fix_suggestions {
            kind.suggestion = true;
        }
        if self.fix_dangerously {
            if kind.is_none() {
                kind.fix = true;
            }
            kind.dangerous = true;
        }
        kind
    }

    /// Whether any fix option was given.
    pub fn is_enabled(&self) -> (r: bool)
        ensures
            r == (self.fix || self.fix_suggestions || self.fix_dangerously),
    {
        self.fix || self.fix_suggestions || self.fix_dangerously
    }
}

/// How warnings are treated.
#[derive(Debug, Clone, Copy)]
pub struct WarningOptions {
    /// Report errors only.
    pub quiet: bool,
    /// Exit unsuccessfully when any warning was reported.
    pub deny_warnings: bool,
    /// Exit unsuccessfully when more than this many warnings were reported.
    pub max_warnings: Option<usize>,
}

/// The output options.
#[derive(Debug, Clone, Copy)]
pub struct OutputOptions {
    /// The report format to print.
    pub format: OutputFormat,
}

/// The file-ignore options.
#[derive(Debug, Clone)]
pub struct IgnoreOptions {
    /// Disregard all ignore files and patterns.
    pub no_ignore: bool,
    /// Path of the ignore file to honour.
    pub ignore_path: String,
    /// Extra ignore patterns from the command line.
    pub ignore_pattern: Vec<String>,
}

/// Miscellaneous options.
#[derive(Debug, Clone, Copy)]
pub struct MiscOptions {
    /// Run without printing any diagnostic.
    pub silent: bool,
    /// Number of worker threads to use; the machine decides when absent.
    pub threads: Option<usize>,
    /// Print the resolved configuration instead of linting.
    pub print_config: bool,
}

/// A three-state switch: explicitly enabled, explicitly disabled, or left
/// unset so that the configuration file or the default decides.
#[derive(Debug, Clone, Copy, PartialEq, Eq, Structural)]
pub enum OverrideToggle {
    /// Override to enabled.
    Enable,
    /// Override to disabled.
    Disable,
    /// Do not override.
    NotSet,
}

impl Default for OverrideToggle {
    /// A toggle nobody has touched.
    fn default() -> (t: Self)
        ensures
            t == OverrideToggle::NotSet,
    {
        OverrideToggle::NotSet
    }
}

impl OverrideToggle {
    /// Whether the toggle was explicitly set to enabled.
    pub fn is_enabled(self) -> (r: bool)
        ensures
            r == (self == OverrideToggle::Enable),
    {
        matches!(self, OverrideToggle::Enable)
    }

    /// Whether the toggle was left unset.
    pub fn is_not_set(self) -> (r: bool)
        ensures
            r == (self == OverrideToggle::NotSet),
    {
        matches!(self, OverrideToggle::NotSet)
    }

    /// The boolean the toggle was set to, when it was set at all.
    pub fn setting(self) -> (r: Option<bool>)
        ensures
            r == self.spec_setting(),
    {
        match self {
            OverrideToggle::Enable => Some(true),
            OverrideToggle::Disable => Some(false),
            OverrideToggle::NotSet => None,
        }
    }

    pub open spec fn spec_setting(self) -> Option<bool> {
        match self {
            OverrideToggle::Enable => Some(true),
            OverrideToggle::Disable => Some(false),
            OverrideToggle::NotSet => None,
        }
    }

    /// Runs `f` on the chosen boolean exactly when the toggle was set:
    /// once with that boolean for a set toggle, not at all for an unset
    /// one.  That the call happened is visible through `f`'s own
    /// postcondition; that no call happens on an unset toggle has no
    /// observable trace to state.
    pub fn inspect<F: FnOnce(bool)>(self, f: F)
        requires
            forall|b: bool| f.requires((b,)),
        ensures
            self.spec_setting() is Some ==> f.ensures((self.spec_setting()->0,), ()),
    {
        match self {
            OverrideToggle::Enable => f(true),
            OverrideToggle::Disable => f(false),
            OverrideToggle::NotSet => (),
        }
    }

    /// Applies this toggle over a current flag value.
    pub fn apply(self, current: bool) -> (r: bool)
        ensures
            r == self.spec_apply(current),
    {
        match self {
            OverrideToggle::Enable => true,
            OverrideToggle::Disable => false,
            OverrideToggle::NotSet => current,
        }
    }

    /// The flag value after this toggle is applied over `current`.
    pub open spec fn spec_apply(self, current: bool) -> bool {
        match self {
            OverrideToggle::Enable => true,
            OverrideToggle::Disable => false,
            OverrideToggle::NotSet => current,
        }
    }
}

/// The per-plugin enable and disable switches from the command line.
#[derive(Debug, Clone, Copy)]
pub struct EnablePlugins {
    pub unicorn_plugin: OverrideToggle,
    pub oxc_plugin: OverrideToggle,
    pub typescript_plugin: OverrideToggle,
    pub import_plugin: OverrideToggle,
    pub react_plugin: OverrideToggle,
    pub jsdoc_plugin: OverrideToggle,
    pub jest_plugin: OverrideToggle,
    pub vitest_plugin: OverrideToggle,
    pub jsx_a11y_plugin: OverrideToggle,
    pub nextjs_plugin: OverrideToggle,
    pub react_perf_plugin: OverrideToggle,
    pub promise_plugin: OverrideToggle,
    pub node_plugin: OverrideToggle,
    pub regex_plugin: OverrideToggle,
    pub vue_plugin: OverrideToggle,
}

impl Default for EnablePlugins {
    /// All toggles unset.
    fn default() -> (e: Self)
        ensures
            e == EnablePlugins::spec_default(),
    {
        EnablePlugins {
            unicorn_plugin: OverrideToggle::NotSet,
            oxc_plugin: OverrideToggle::NotSet,
            typescript_plugin: OverrideToggle::NotSet,
            import_plugin: OverrideToggle::NotSet,
            react_plugin: OverrideToggle::NotSet,
            jsdoc_plugin: OverrideToggle::NotSet,
            jest_plugin: OverrideToggle::NotSet,
            vitest_plugin: OverrideToggle::NotSet,
            jsx_a11y_plugin: OverrideToggle::NotSet,
            nextjs_plugin: OverrideToggle::NotSet,
            react_perf_plugin: OverrideToggle::NotSet,
            promise_plugin: OverrideToggle::NotSet,
            node_plugin: OverrideToggle::NotSet,
            regex_plugin: OverrideToggle::NotSet,
            vue_plugin: OverrideToggle::NotSet,
        }
    }
}

impl EnablePlugins {
    pub open spec fn spec_default() -> EnablePlugins {
        EnablePlugins {
            unicorn_plugin: OverrideToggle::NotSet,
            oxc_plugin: OverrideToggle::NotSet,
            typescript_plugin: OverrideToggle::NotSet,
            import_plugin: OverrideToggle::NotSet,
            react_plugin: OverrideToggle::NotSet,
            jsdoc_plugin: OverrideToggle::NotSet,
            jest_plugin: OverrideToggle::NotSet,
            vitest_plugin: OverrideToggle::NotSet,
            jsx_a11y_plugin: OverrideToggle::NotSet,
            nextjs_plugin: OverrideToggle::NotSet,
            react_perf_plugin: OverrideToggle::NotSet,
            promise_plugin: OverrideToggle::NotSet,
            node_plugin: OverrideToggle::NotSet,
            regex_plugin: OverrideToggle::NotSet,
            vue_plugin: OverrideToggle::NotSet,
        }
    }

    /// Applies the command-line plugin toggles over a plugin set: each set
    /// toggle overrides its flag, and enabling the vitest plugin without
    /// touching the jest toggle also enables the jest plugin, whose rules
    /// the vitest plugin reuses.
    pub fn apply_overrides(&self, plugins: &mut LintPlugins)
        ensures
            final(plugins).builtin.react == self.react_plugin.spec_apply(
                old(plugins).builtin.react,
            ),
            final(plugins).builtin.unicorn == self.unicorn_plugin.spec_apply(
                old(plugins).builtin.unicorn,
            ),
            final(plugins).builtin.oxc == self.oxc_plugin.spec_apply(old(plugins).builtin.oxc),
            final(plugins).builtin.typescript == self.typescript_plugin.spec_apply(
                old(plugins).builtin.typescript,
            ),
            final(plugins).builtin.import == self.import_plugin.spec_apply(
                old(plugins).builtin.import,
            ),
            final(plugins).builtin.jsdoc == self.jsdoc_plugin.spec_apply(
                old(plugins).builtin.jsdoc,
            ),
            final(plugins).builtin.jest == if self.vitest_plugin == OverrideToggle::Enable
                && self.jest_plugin == OverrideToggle::NotSet {
                true
            } else {
                self.jest_plugin.spec_apply(old(plugins).builtin.jest)
            },
            final(plugins).builtin.vitest == self.vitest_plugin.spec_apply(
                old(plugins).builtin.vitest,
            ),
            final(plugins).builtin.jsx_a11y == self.jsx_a11y_plugin.spec_apply(
                old(plugins).builtin.jsx_a11y,
            ),
            final(plugins).builtin.nextjs == self.nextjs_plugin.spec_apply(
                old(plugins).builtin.nextjs,
            ),
            final(plugins).builtin.react_perf == self.react_perf_plugin.spec_apply(
                old(plugins).builtin.react_perf,
            ),
            final(plugins).builtin.promise == self.promise_plugin.spec_apply(
                old(plugins).builtin.promise,
            ),
            final(plugins).builtin.node == self.node_plugin.spec_apply(
                old(plugins).builtin.node,
            ),
            final(plugins).builtin.regex == self.regex_plugin.spec_apply(
                old(plugins).builtin.regex,
            ),
            final(plugins).builtin.vue == self.vue_plugin.spec_apply(old(plugins).builtin.vue),
    {
        let b = plugins.builtin;
        let jest = if self.vitest_plugin.is_enabled() && self.jest_plugin.is_not_set() {
            true
        } else {
            self.jest_plugin.apply(b.jest)
        };
        plugins.builtin = crate::plugins::BuiltinLintPlugins {
            react: self.react_plugin.apply(b.react),
            unicorn: self.unicorn_plugin.apply(b.unicorn),
            oxc: self.oxc_plugin.apply(b.oxc),
            typescript: self.typescript_plugin.apply(b.typescript),
            import: self.import_plugin.apply(b.import),
            jsdoc: self.jsdoc_plugin.apply(b.jsdoc),
            jest,
            vitest: self.vitest_plugin.apply(b.vitest),
            jsx_a11y: self.jsx_a11y_plugin.apply(b.jsx_a11y),
            nextjs: self.nextjs_plugin.apply(b.nextjs),
            react_perf: self.react_perf_plugin.apply(b.react_perf),
            promise: self.promise_plugin.apply(b.promise),
            node: self.node_plugin.apply(b.node),
            regex: self.regex_plugin.apply(b.regex),
            vue: self.vue_plugin.apply(b.vue),
        };
    }
}

/// Reporting of unused disable directives: either the plain switch, or the
/// variant that names a severity.
#[derive(Debug, Clone, Copy, PartialEq, Eq, Structural)]
pub enum ReportUnusedDirectives {
    /// The plain switch, reporting at the default severity when given.
    WithoutSeverity(bool),
    /// The switch with an explicit severity.
    WithSeverity(Option<AllowWarnDeny>),
}

/// Options for configuration comments inside source files.
#[derive(Debug, Clone, Copy)]
pub struct InlineConfigOptions {
    /// Whether and how unused disable directives are reported.
    pub report_unused_directives: ReportUnusedDirectives,
}

/// Everything the lint command was invoked with.
#[derive(Debug, Clone)]
pub struct LintCommand {
    pub basic_options: BasicOptions,
    /// The rule filters, in command-line order.
    pub filter: Vec<(AllowWarnDeny, String)>,
    pub enable_plugins: EnablePlugins,
    pub fix_options: FixOptions,
    pub ignore_options: IgnoreOptions,
    pub warning_options: WarningOptions,
    pub output_options: OutputOptions,
    /// List the registered rules instead of linting.
    pub list_rules: bool,
    pub misc_options: MiscOptions,
    /// Do not search for configuration files in subdirectories.
    pub disable_nested_config: bool,
    /// Run the rules that need type information.
    pub type_aware: bool,
    pub inline_config_options: InlineConfigOptions,
    /// The files and directories to lint.
    pub paths: Vec<String>,
}

impl LintCommand {
    /// The number of worker threads this invocation settles on: the thread
    /// option when it is positive, otherwise the machine's available
    /// parallelism, and one thread when even that is unknown.  The caller
    /// builds the worker pool of exactly this size, once, before linting.
    pub fn handle_threads(&self, available_parallelism: Option<usize>) -> (threads: usize)
        ensures
            threads == LintCommand::spec_thread_count(
                self.misc_options.threads,
                available_parallelism,
            ),
    {
        match self.misc_options.threads {
            Some(n) if n > 0 => n,
            _ => match available_parallelism {
                Some(k) => k,
                None => 1,
            },
        }
    }

    pub open spec fn spec_thread_count(
        requested: Option<usize>,
        available: Option<usize>,
    ) -> usize {
        if requested is Some && requested->0 > 0 {
            requested->0
        } else if available is Some {
            available->0
        } else {
            1
        }
    }
}

/// Whether every given path stays inside the working directory: none may
/// contain a parent-directory component.
pub fn validate_paths(paths: &Vec<String>) -> (r: bool)
    ensures
        r == (forall|i: int|
            0 <= i < paths@.len() ==> !crate::textscan::spec_has_parent_component(
                #[trigger] paths@[i]@,
            )),
{
    let mut i: usize = 0;
    while i < paths.len()
        invariant
            i <= paths@.len(),
            forall|j: int|
                0 <= j < i ==> !crate::textscan::spec_has_parent_component(
                    #[trigger] paths@[j]@,
                ),
        decreases paths@.len() - i,
    {
        if crate::textscan::has_parent_component(&paths[i]) {
            return false;
        }
        i = i + 1;
    }
    true
}

/// The message shown when a path fails validation.
pub fn paths_error_message() -> (m: &'static str)
    ensures
        m@ == "PATH must not contain \"..\""@,
{
    "PATH must not contain \"..\""
}

} // verus!
