//! The built-in lint plugins and which of them a run enables.

use vstd::prelude::*;

verus! {

/// One of the built-in plugins that can be switched on or off.
#[derive(Clone, Copy, Debug, PartialEq, Eq, Structural)]
pub enum BuiltinPluginKind {
    React,
    Unicorn,
    Oxc,
    Typescript,
    Import,
    Jsdoc,
    Jest,
    Vitest,
    JsxA11y,
    Nextjs,
    ReactPerf,
    Promise,
    Node,
    Regex,
    Vue,
}

/// The set of enabled built-in plugins, one flag per plugin.
#[derive(Clone, Copy, Debug, PartialEq, Eq, Structural)]
pub struct BuiltinLintPlugins {
    pub react: bool,
    pub unicorn: bool,
    pub oxc: bool,
    pub typescript: bool,
    pub import: bool,
    pub jsdoc: bool,
    pub jest: bool,
    pub vitest: bool,
    pub jsx_a11y: bool,
    pub nextjs: bool,
    pub react_perf: bool,
    pub promise: bool,
    pub node: bool,
    pub regex: bool,
    pub vue: bool,
}

impl BuiltinLintPlugins {
    /// The plugins enabled out of the box: unicorn, oxc and typescript.
    pub fn new() -> (p: BuiltinLintPlugins)
        ensures
            p == BuiltinLintPlugins::spec_default(),
    {
        BuiltinLintPlugins {
            react: false,
            unicorn: true,
            oxc: true,
            typescript: true,
            import: false,
            jsdoc: false,
            jest: false,
            vitest: false,
            jsx_a11y: false,
            nextjs: false,
            react_perf: false,
            promise: false,
            node: false,
            regex: false,
            vue: false,
        }
    }

    pub open spec fn spec_default() -> BuiltinLintPlugins {
        BuiltinLintPlugins {
            react: false,
            unicorn: true,
            oxc: true,
            typescript: true,
            import: false,
            jsdoc: false,
            jest: false,
            vitest: false,
            jsx_a11y: false,
            nextjs: false,
            react_perf: false,
            promise: false,
            node: false,
            regex: false,
            vue: false,
        }
    }

    /// Whether the given plugin is enabled.
    pub open spec fn spec_has(self, kind: BuiltinPluginKind) -> bool {
        match kind {
            BuiltinPluginKind::React => self.react,
            BuiltinPluginKind::Unicorn => self.unicorn,
            BuiltinPluginKind::Oxc => self.oxc,
            BuiltinPluginKind::Typescript => self.typescript,
            BuiltinPluginKind::Import => self.import,
            BuiltinPluginKind::Jsdoc => self.jsdoc,
            BuiltinPluginKind::Jest => self.jest,
            BuiltinPluginKind::Vitest => self.vitest,
            BuiltinPluginKind::JsxA11y => self.jsx_a11y,
            BuiltinPluginKind::Nextjs => self.nextjs,
            BuiltinPluginKind::ReactPerf => self.react_perf,
            BuiltinPluginKind::Promise => self.promise,
            BuiltinPluginKind::Node => self.node,
            BuiltinPluginKind::Regex => self.regex,
            BuiltinPluginKind::Vue => self.vue,
        }
    }

    /// Switches one plugin on or off, leaving all others unchanged.
    pub fn set(&mut self, kind: BuiltinPluginKind, on: bool)
        ensures
            final(self).react == if kind == BuiltinPluginKind::React { on } else { old(self).react },
            final(self).unicorn == if kind == BuiltinPluginKind::Unicorn { on } else { old(self).unicorn },
            final(self).oxc == if kind == BuiltinPluginKind::Oxc { on } else { old(self).oxc },
            final(self).typescript == if kind == BuiltinPluginKind::Typescript { on } else { old(self).typescript },
            final(self).import == if kind == BuiltinPluginKind::Import { on } else { old(self).import },
            final(self).jsdoc == if kind == BuiltinPluginKind::Jsdoc { on } else { old(self).jsdoc },
            final(self).jest == if kind == BuiltinPluginKind::Jest { on } else { old(self).jest },
            final(self).vitest == if kind == BuiltinPluginKind::Vitest { on } else { old(self).vitest },
            final(self).jsx_a11y == if kind == BuiltinPluginKind::JsxA11y { on } else { old(self).jsx_a11y },
            final(self).nextjs == if kind == BuiltinPluginKind::Nextjs { on } else { old(self).nextjs },
            final(self).react_perf == if kind == BuiltinPluginKind::ReactPerf { on } else { old(self).react_perf },
            final(self).promise == if kind == BuiltinPluginKind::Promise { on } else { old(self).promise },
            final(self).node == if kind == BuiltinPluginKind::Node { on } else { old(self).node },
            final(self).regex == if kind == BuiltinPluginKind::Regex { on } else { old(self).regex },
            final(self).vue == if kind == BuiltinPluginKind::Vue { on } else { old(self).vue },
    {
        match kind {
            BuiltinPluginKind::React => self.react = on,
            BuiltinPluginKind::Unicorn => self.unicorn = on,
            BuiltinPluginKind::Oxc => self.oxc = on,
            BuiltinPluginKind::Typescript => self.typescript = on,
            BuiltinPluginKind::Import => self.import = on,
            BuiltinPluginKind::Jsdoc => self.jsdoc = on,
            BuiltinPluginKind::Jest => self.jest = on,
            BuiltinPluginKind::Vitest => self.vitest = on,
            BuiltinPluginKind::JsxA11y => self.jsx_a11y = on,
            BuiltinPluginKind::Nextjs => self.nextjs = on,
            BuiltinPluginKind::ReactPerf => self.react_perf = on,
            BuiltinPluginKind::Promise => self.promise = on,
            BuiltinPluginKind::Node => self.node = on,
            BuiltinPluginKind::Regex => self.regex = on,
            BuiltinPluginKind::Vue => self.vue = on,
        }
    }
}

impl Default for BuiltinLintPlugins {
    /// The default plugin selection.
    fn default() -> (p: Self)
        ensures
            p == BuiltinLintPlugins::spec_default(),
    {
        BuiltinLintPlugins::new()
    }
}

/// The plugins a run works with.  External plugins are loaded through the
/// external linter and live outside this set.
#[derive(Clone, Copy, Debug, PartialEq, Eq, Structural)]
pub struct LintPlugins {
    /// The built-in plugins that are enabled.
    pub builtin: BuiltinLintPlugins,
}

impl LintPlugins {
    /// Wraps a set of built-in plugins.
    pub fn new(builtin: BuiltinLintPlugins) -> (p: LintPlugins)
        ensures
            p.builtin == builtin,
    {
        LintPlugins { builtin }
    }

    /// The default plugin selection.
    pub fn standard() -> (p: LintPlugins)
        ensures
            p.builtin == BuiltinLintPlugins::spec_default(),
    {
        LintPlugins { builtin: BuiltinLintPlugins::new() }
    }

    /// Whether the import plugin is enabled, which turns on cross-module
    /// analysis.
    pub fn has_import(&self) -> (r: bool)
        ensures
            r == self.builtin.import,
    {
        self.builtin.import
    }
}

impl Default for LintPlugins {
    /// The default plugin selection.
    fn default() -> (p: Self)
        ensures
            p.builtin == BuiltinLintPlugins::spec_default(),
    {
        LintPlugins::standard()
    }
}

} // verus!
