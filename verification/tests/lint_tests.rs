// Runs of the lint command over in-memory worlds: each test builds a host
// describing what the collaborators would answer for a set of files, runs
// the command, and checks the deliveries, writes and exit status.

use oxlint::cli::{
    BasicOptions, EnablePlugins, FixOptions, IgnoreOptions, InlineConfigOptions, LintCommand,
    MiscOptions, OutputOptions, OverrideToggle, ReportUnusedDirectives, WarningOptions,
};
use oxlint::host::{Diagnostic, Edit, Host, HostFile, HostSection};
use oxlint::lint_runner::{CliRunResult, LintRunner};
use oxlint::options::{AllowWarnDeny, OutputFormat};
use oxlint::runtime::RunOutcome;

fn section(diags: Vec<(&str, bool)>) -> HostSection {
    HostSection {
        imports: Vec::new(),
        parse_errors: Vec::new(),
        diagnostics: diags
            .into_iter()
            .map(|(m, severe)| Diagnostic { message: m.to_string(), severe })
            .collect(),
        edit: None,
    }
}

fn mk_file(path: &str, content: &str, sections: Vec<HostSection>) -> HostFile {
    HostFile { path: path.to_string(), readable: true, content: content.to_string(), sections }
}

fn host(files: Vec<HostFile>) -> Host {
    Host { files }
}

fn command(paths: Vec<&str>) -> LintCommand {
    LintCommand {
        basic_options: BasicOptions { config: None, tsconfig: None, init: false },
        filter: Vec::new(),
        enable_plugins: EnablePlugins::default(),
        fix_options: FixOptions { fix: false, fix_suggestions: false, fix_dangerously: false },
        ignore_options: IgnoreOptions {
            no_ignore: false,
            ignore_path: String::new(),
            ignore_pattern: Vec::new(),
        },
        warning_options: WarningOptions { quiet: false, deny_warnings: false, max_warnings: None },
        output_options: OutputOptions { format: OutputFormat::Default },
        list_rules: false,
        misc_options: MiscOptions { silent: false, threads: None, print_config: false },
        disable_nested_config: false,
        type_aware: false,
        inline_config_options: InlineConfigOptions {
            report_unused_directives: ReportUnusedDirectives::WithoutSeverity(false),
        },
        paths: paths.into_iter().map(|p| p.to_string()).collect(),
    }
}

fn run(cmd: LintCommand, h: &Host) -> (CliRunResult, RunOutcome) {
    LintRunner::new(cmd, None).run(h)
}

fn delivered_paths(o: &RunOutcome) -> Vec<String> {
    let mut v: Vec<String> = o.deliveries.iter().map(|d| d.path.clone()).collect();
    v.sort();
    v
}

#[test]
fn no_arg() {
    let h = host(vec![
        mk_file("fixtures/linter/debugger.js", "debugger;\n", vec![section(vec![])]),
        mk_file("fixtures/linter/nan.js", "NaN\n", vec![section(vec![])]),
    ]);
    let (code, o) = run(command(vec!["fixtures/linter"]), &h);
    assert_eq!(code, CliRunResult::LintSucceeded);
    assert_eq!(o.deliveries.len(), 2);
}

#[test]
fn dir() {
    let h = host(vec![
        mk_file(
            "fixtures/linter/debugger.js",
            "debugger;\n",
            vec![section(vec![("eslint(no-debugger): `debugger` statement is not allowed", true)])],
        ),
        mk_file("fixtures/linter/nan.js", "NaN\n", vec![section(vec![])]),
    ]);
    let (code, o) = run(command(vec!["fixtures/linter"]), &h);
    assert_eq!(code, CliRunResult::LintFoundErrors);
    assert_eq!(o.deliveries.len(), 2);
}

#[test]
fn cwd() {
    let h = host(vec![mk_file(
        "debugger.js",
        "debugger;\n",
        vec![section(vec![("eslint(no-debugger): `debugger` statement is not allowed", true)])],
    )]);
    let runner =
        LintRunner::new(command(vec!["debugger.js"]), None).with_cwd("fixtures/linter".to_string());
    let (code, o) = runner.run(&h);
    assert_eq!(code, CliRunResult::LintFoundErrors);
    assert_eq!(o.deliveries.len(), 1);
}

#[test]
fn file() {
    let h = host(vec![mk_file(
        "fixtures/linter/debugger.js",
        "debugger;\n",
        vec![section(vec![("eslint(no-debugger): `debugger` statement is not allowed", true)])],
    )]);
    let (code, o) = run(command(vec!["fixtures/linter/debugger.js"]), &h);
    assert_eq!(code, CliRunResult::LintFoundErrors);
    assert_eq!(o.deliveries.len(), 1);
    assert_eq!(o.deliveries[0].diagnostics.len(), 1);
}

#[test]
fn multi_files() {
    let h = host(vec![
        mk_file(
            "fixtures/linter/debugger.js",
            "debugger;\n",
            vec![section(vec![("eslint(no-debugger)", true)])],
        ),
        mk_file("fixtures/linter/nan.js", "NaN\n", vec![section(vec![("eslint(no-nan)", false)])]),
    ]);
    let (code, o) =
        run(command(vec!["fixtures/linter/debugger.js", "fixtures/linter/nan.js"]), &h);
    assert_eq!(code, CliRunResult::LintFoundErrors);
    assert_eq!(o.deliveries.len(), 2);
}

#[test]
fn wrong_extension() {
    let h = host(vec![mk_file("foo.asdf", "whatever", vec![section(vec![])])]);
    let (code, o) = run(command(vec!["foo.asdf"]), &h);
    assert_eq!(code, CliRunResult::LintNoFilesFound);
    assert_eq!(o.deliveries.len(), 0);
}

#[test]
fn ignore_pattern() {
    let mut cmd = command(vec!["fixtures/linter"]);
    cmd.ignore_options.ignore_pattern = vec!["**/*.js".to_string(), "**/*.vue".to_string()];
    let h = host(vec![
        mk_file("fixtures/linter/debugger.js", "debugger;\n", vec![section(vec![])]),
        mk_file("fixtures/linter/debugger.vue", "<script></script>\n", vec![section(vec![])]),
    ]);
    let (code, o) = run(cmd, &h);
    assert_eq!(code, CliRunResult::LintNoFilesFound);
    assert_eq!(o.deliveries.len(), 0);
}

#[test]
fn ignore_file_overrides_explicit_args() {
    // patterns read from the ignore file exclude a path even when it was
    // named explicitly on the command line
    let mut cmd = command(vec!["fixtures/linter/nan.js"]);
    cmd.ignore_options.ignore_path = "fixtures/linter/.customignore".to_string();
    cmd.ignore_options.ignore_pattern = vec!["*.js".to_string()];
    let h = host(vec![mk_file("fixtures/linter/nan.js", "NaN\n", vec![section(vec![])])]);
    let (code, o) = run(cmd, &h);
    assert_eq!(code, CliRunResult::LintNoFilesFound);
    assert_eq!(o.deliveries.len(), 0);
}

#[test]
fn ignore_file_no_ignore() {
    let mut cmd = command(vec!["fixtures/linter/nan.js"]);
    cmd.ignore_options.ignore_path = "fixtures/linter/.customignore".to_string();
    cmd.ignore_options.ignore_pattern = vec!["*.js".to_string()];
    cmd.ignore_options.no_ignore = true;
    let h = host(vec![mk_file("fixtures/linter/nan.js", "NaN\n", vec![section(vec![])])]);
    let (code, o) = run(cmd, &h);
    assert_eq!(code, CliRunResult::LintSucceeded);
    assert_eq!(o.deliveries.len(), 1);
}

#[test]
fn ignore_flow() {
    // a flow file's parse errors are dropped: the section reports nothing
    let mut cmd = command(vec!["fixtures/flow/index.mjs"]);
    cmd.enable_plugins.import_plugin = OverrideToggle::Enable;
    let h = host(vec![mk_file("fixtures/flow/index.mjs", "// @flow\n", vec![section(vec![])])]);
    let (code, o) = run(cmd, &h);
    assert_eq!(code, CliRunResult::LintSucceeded);
    assert_eq!(o.deliveries.len(), 1);
    assert_eq!(o.deliveries[0].diagnostics.len(), 0);
}

#[test]
fn ignore_flow_import_plugin_directory() {
    let mut cmd = command(vec!["fixtures/flow"]);
    cmd.enable_plugins.import_plugin = OverrideToggle::Enable;
    cmd.filter = vec![
        (AllowWarnDeny::Allow, "all".to_string()),
        (AllowWarnDeny::Deny, "no-cycle".to_string()),
    ];
    let h = host(vec![mk_file("fixtures/flow/index.mjs", "// @flow\n", vec![section(vec![])])]);
    let (code, _o) = run(cmd, &h);
    assert_eq!(code, CliRunResult::LintSucceeded);
}

#[test]
fn ignore_file_current_dir() {
    let mut cmd = command(vec!["."]);
    cmd.ignore_options.ignore_pattern = vec!["*.js".to_string()];
    let h = host(vec![mk_file("./main.js", "1\n", vec![section(vec![])])]);
    let (code, _o) = run(cmd, &h);
    assert_eq!(code, CliRunResult::LintNoFilesFound);
}

#[test]
fn ignore_pattern_non_glob_syntax() {
    // a pattern that is a plain path excludes that path and what lies
    // under it
    let mut cmd = command(vec!["."]);
    cmd.ignore_options.ignore_pattern = vec!["./sub".to_string()];
    let h = host(vec![mk_file("./sub/app.js", "1\n", vec![section(vec![])])]);
    let (code, _o) = run(cmd, &h);
    assert_eq!(code, CliRunResult::LintNoFilesFound);
}

#[test]
fn ignore_patterns_empty_nested() {
    let mut cmd = command(vec!["."]);
    cmd.ignore_options.ignore_pattern = Vec::new();
    let h = host(vec![mk_file("./nested/app.js", "1\n", vec![section(vec![])])]);
    let (code, o) = run(cmd, &h);
    assert_eq!(code, CliRunResult::LintSucceeded);
    assert_eq!(o.deliveries.len(), 1);
}

#[test]
fn ignore_patterns_relative() {
    let mut cmd = command(vec!["."]);
    cmd.ignore_options.ignore_pattern = vec!["./skipped".to_string()];
    let h = host(vec![
        mk_file("./skipped/a.js", "1\n", vec![section(vec![])]),
        mk_file("./kept/b.js", "1\n", vec![section(vec![])]),
    ]);
    let (code, o) = run(cmd, &h);
    assert_eq!(code, CliRunResult::LintSucceeded);
    assert_eq!(delivered_paths(&o), vec!["./kept/b.js".to_string()]);
}

#[test]
fn ignore_patterns_with_symlink() {
    // the walk follows what the listing shows; a linked path is filtered
    // like any other
    let mut cmd = command(vec!["."]);
    cmd.ignore_options.ignore_pattern = vec!["./linked".to_string()];
    let h = host(vec![mk_file("./linked/a.js", "1\n", vec![section(vec![])])]);
    let (code, _o) = run(cmd, &h);
    assert_eq!(code, CliRunResult::LintNoFilesFound);
}

#[test]
fn filter_allow_all() {
    let mut cmd = command(vec!["fixtures/linter"]);
    cmd.filter = vec![(AllowWarnDeny::Allow, "all".to_string())];
    // with every rule allowed the engine reports nothing
    let h = host(vec![mk_file("fixtures/linter/debugger.js", "debugger;\n", vec![section(vec![])])]);
    let (code, o) = run(cmd, &h);
    assert_eq!(code, CliRunResult::LintSucceeded);
    assert_eq!(o.deliveries.len(), 1);
    assert_eq!(o.deliveries[0].diagnostics.len(), 0);
}

#[test]
fn filter_allow_one() {
    let mut cmd = command(vec!["fixtures/linter/debugger.js"]);
    cmd.filter = vec![
        (AllowWarnDeny::Warn, "correctness".to_string()),
        (AllowWarnDeny::Allow, "no-debugger".to_string()),
    ];
    let h = host(vec![mk_file("fixtures/linter/debugger.js", "debugger;\n", vec![section(vec![])])]);
    let (code, o) = run(cmd, &h);
    assert_eq!(code, CliRunResult::LintSucceeded);
    assert_eq!(o.deliveries[0].diagnostics.len(), 0);
}

#[test]
fn filter_error() {
    let mut cmd = command(vec!["fixtures/linter/debugger.js"]);
    cmd.filter = vec![(AllowWarnDeny::Deny, "correctness".to_string())];
    let h = host(vec![mk_file(
        "fixtures/linter/debugger.js",
        "debugger;\n",
        vec![section(vec![("eslint(no-debugger)", true)])],
    )]);
    let (code, _o) = run(cmd, &h);
    assert_eq!(code, CliRunResult::LintFoundErrors);
}

#[test]
fn eslintrc_error() {
    let mut cmd = command(vec!["fixtures/linter/debugger.js"]);
    cmd.basic_options.config = Some("fixtures/linter/eslintrc.json".to_string());
    let h = host(vec![mk_file(
        "fixtures/linter/debugger.js",
        "debugger;\n",
        vec![section(vec![("eslint(no-debugger)", true)])],
    )]);
    let (code, _o) = run(cmd, &h);
    assert_eq!(code, CliRunResult::LintFoundErrors);
}

#[test]
fn eslintrc_off() {
    let mut cmd = command(vec!["fixtures/eslintrc_off/test.js"]);
    cmd.basic_options.config = Some("fixtures/eslintrc_off/eslintrc.json".to_string());
    let h = host(vec![mk_file("fixtures/eslintrc_off/test.js", "1\n", vec![section(vec![])])]);
    let (code, o) = run(cmd, &h);
    assert_eq!(code, CliRunResult::LintSucceeded);
    assert_eq!(o.deliveries[0].diagnostics.len(), 0);
}

#[test]
fn oxlint_config_auto_detection() {
    let h = host(vec![mk_file(
        "debugger.js",
        "debugger;\n",
        vec![section(vec![("eslint(no-debugger)", true)])],
    )]);
    let runner = LintRunner::new(command(vec!["debugger.js"]), None)
        .with_cwd("fixtures/auto_config_detection".to_string());
    let (code, _o) = runner.run(&h);
    assert_eq!(code, CliRunResult::LintFoundErrors);
}

#[test]
fn oxlint_config_auto_detection_parse_error() {
    // a file the collaborators cannot read yields its read failure as the
    // delivery
    let h = host(vec![HostFile {
        path: "debugger.js".to_string(),
        readable: false,
        content: String::new(),
        sections: Vec::new(),
    }]);
    let (code, o) = run(command(vec!["debugger.js"]), &h);
    assert_eq!(code, CliRunResult::LintFoundErrors);
    assert_eq!(o.deliveries.len(), 1);
    assert!(o.deliveries[0].diagnostics[0].message.contains("Failed to open file"));
}

#[test]
fn eslintrc_no_undef() {
    let mut cmd = command(vec!["fixtures/no_undef/test.js"]);
    cmd.filter = vec![(AllowWarnDeny::Warn, "no-undef".to_string())];
    cmd.basic_options.config = Some("fixtures/no_undef/eslintrc.json".to_string());
    let h = host(vec![mk_file(
        "fixtures/no_undef/test.js",
        "foo;\n",
        vec![section(vec![("eslint(no-undef): 'foo' is not defined", false)])],
    )]);
    let (code, o) = run(cmd, &h);
    assert_eq!(code, CliRunResult::LintSucceeded);
    assert_eq!(o.deliveries[0].diagnostics.len(), 1);
    assert!(!o.deliveries[0].diagnostics[0].severe);
}

#[test]
fn eslintrc_no_env() {
    let mut cmd = command(vec!["fixtures/eslintrc_env/test.js"]);
    cmd.filter = vec![(AllowWarnDeny::Warn, "no-undef".to_string())];
    cmd.basic_options.config = Some("fixtures/eslintrc_env/eslintrc_no_env.json".to_string());
    let h = host(vec![mk_file(
        "fixtures/eslintrc_env/test.js",
        "window;\n",
        vec![section(vec![("eslint(no-undef): 'window' is not defined", false)])],
    )]);
    let (code, _o) = run(cmd, &h);
    assert_eq!(code, CliRunResult::LintSucceeded);
}

#[test]
fn eslintrc_with_env() {
    let mut cmd = command(vec!["fixtures/eslintrc_env/test.js"]);
    cmd.basic_options.config = Some("fixtures/eslintrc_env/eslintrc_env_browser.json".to_string());
    let h = host(vec![mk_file("fixtures/eslintrc_env/test.js", "window;\n", vec![section(vec![])])]);
    let (code, o) = run(cmd, &h);
    assert_eq!(code, CliRunResult::LintSucceeded);
    assert_eq!(o.deliveries[0].diagnostics.len(), 0);
}

#[test]
fn no_empty_allow_empty_catch() {
    let mut cmd = command(vec!["fixtures/no_empty_allow_empty_catch/test.js"]);
    cmd.basic_options.config = Some("fixtures/no_empty_allow_empty_catch/eslintrc.json".to_string());
    cmd.filter = vec![(AllowWarnDeny::Warn, "no-empty".to_string())];
    let h = host(vec![mk_file(
        "fixtures/no_empty_allow_empty_catch/test.js",
        "try {} catch (e) {}\n",
        vec![section(vec![("eslint(no-empty): empty block", false)])],
    )]);
    let (code, o) = run(cmd, &h);
    assert_eq!(code, CliRunResult::LintSucceeded);
    assert_eq!(o.deliveries[0].diagnostics.len(), 1);
}

#[test]
fn no_empty_disallow_empty_catch() {
    let mut cmd = command(vec!["fixtures/no_empty_disallow_empty_catch/test.js"]);
    cmd.basic_options.config =
        Some("fixtures/no_empty_disallow_empty_catch/eslintrc.json".to_string());
    cmd.filter = vec![(AllowWarnDeny::Warn, "no-empty".to_string())];
    let h = host(vec![mk_file(
        "fixtures/no_empty_disallow_empty_catch/test.js",
        "try {} catch (e) {}\n",
        vec![section(vec![
            ("eslint(no-empty): empty block", false),
            ("eslint(no-empty): empty catch", false),
        ])],
    )]);
    let (code, o) = run(cmd, &h);
    assert_eq!(code, CliRunResult::LintSucceeded);
    assert_eq!(o.deliveries[0].diagnostics.len(), 2);
}

#[test]
fn no_console_off() {
    let mut cmd = command(vec!["fixtures/no_console_off/test.js"]);
    cmd.basic_options.config = Some("fixtures/no_console_off/eslintrc.json".to_string());
    let h = host(vec![mk_file(
        "fixtures/no_console_off/test.js",
        "console.log(1)\n",
        vec![section(vec![])],
    )]);
    let (code, o) = run(cmd, &h);
    assert_eq!(code, CliRunResult::LintSucceeded);
    assert_eq!(o.deliveries[0].diagnostics.len(), 0);
}

#[test]
fn typescript_eslint() {
    let mut cmd = command(vec!["fixtures/typescript_eslint/test.ts"]);
    cmd.basic_options.config = Some("fixtures/typescript_eslint/eslintrc.json".to_string());
    let h = host(vec![mk_file(
        "fixtures/typescript_eslint/test.ts",
        "let a: any;\n",
        vec![section(vec![("typescript-eslint(no-explicit-any)", false)])],
    )]);
    let (code, o) = run(cmd, &h);
    assert_eq!(code, CliRunResult::LintSucceeded);
    assert_eq!(o.deliveries[0].diagnostics.len(), 1);
}

#[test]
fn typescript_eslint_off() {
    let mut cmd = command(vec!["fixtures/typescript_eslint/test.ts"]);
    cmd.basic_options.config = Some("fixtures/typescript_eslint/eslintrc.json".to_string());
    cmd.enable_plugins.typescript_plugin = OverrideToggle::Disable;
    let h = host(vec![mk_file(
        "fixtures/typescript_eslint/test.ts",
        "let a: any;\n",
        vec![section(vec![])],
    )]);
    let (code, o) = run(cmd, &h);
    assert_eq!(code, CliRunResult::LintSucceeded);
    assert_eq!(o.deliveries[0].diagnostics.len(), 0);
}

#[test]
fn js_and_jsx() {
    let h = host(vec![mk_file(
        "fixtures/linter/js_as_jsx.js",
        "<a/>\n",
        vec![section(vec![])],
    )]);
    let (code, o) = run(command(vec!["fixtures/linter/js_as_jsx.js"]), &h);
    assert_eq!(code, CliRunResult::LintSucceeded);
    assert_eq!(o.deliveries.len(), 1);
}

#[test]
fn lint_vue_file() {
    // a framework file has one section per script block
    let h = host(vec![mk_file(
        "fixtures/vue/debugger.vue",
        "<script>debugger;</script>\n<script setup>debugger;</script>\n",
        vec![
            section(vec![("eslint(no-debugger)", true)]),
            section(vec![("eslint(no-debugger)", true)]),
        ],
    )]);
    let (code, o) = run(command(vec!["fixtures/vue/debugger.vue"]), &h);
    assert_eq!(code, CliRunResult::LintFoundErrors);
    assert_eq!(o.deliveries[0].diagnostics.len(), 2);
}

#[test]
fn lint_empty_vue_file() {
    let h = host(vec![mk_file("fixtures/vue/empty.vue", "", vec![])]);
    let (code, o) = run(command(vec!["fixtures/vue/empty.vue"]), &h);
    assert_eq!(code, CliRunResult::LintSucceeded);
    assert_eq!(o.deliveries[0].diagnostics.len(), 0);
}

#[test]
fn lint_astro_file() {
    let h = host(vec![mk_file(
        "fixtures/astro/debugger.astro",
        "<script>debugger;</script>\n",
        vec![section(vec![("eslint(no-debugger)", true)])],
    )]);
    let (code, o) = run(command(vec!["fixtures/astro/debugger.astro"]), &h);
    assert_eq!(code, CliRunResult::LintFoundErrors);
    assert_eq!(o.deliveries.len(), 1);
}

#[test]
fn lint_svelte_file() {
    let h = host(vec![mk_file(
        "fixtures/svelte/debugger.svelte",
        "<script>debugger;</script>\n",
        vec![section(vec![("eslint(no-debugger)", true)])],
    )]);
    let (code, o) = run(command(vec!["fixtures/svelte/debugger.svelte"]), &h);
    assert_eq!(code, CliRunResult::LintFoundErrors);
    assert_eq!(o.deliveries.len(), 1);
}

#[test]
fn test_tsconfig_option() {
    let mut cmd = command(vec!["fixtures/tsconfig/test.ts"]);
    cmd.basic_options.tsconfig = Some("fixtures/tsconfig/tsconfig.json".to_string());
    let h = host(vec![mk_file("fixtures/tsconfig/test.ts", "1\n", vec![section(vec![])])]);
    let (code, _o) = run(cmd, &h);
    assert_eq!(code, CliRunResult::LintSucceeded);
}

#[test]
fn test_fix() {
    // a fix-enabled run writes each fixed file exactly once, with every
    // section's fix applied to one buffer
    let mut cmd = command(vec!["fixtures/fix_argument/fix.js"]);
    cmd.fix_options.fix = true;
    let mut sec = section(vec![]);
    sec.edit = Some(Edit { start: 0, end: 8, replacement: String::new() });
    let h = host(vec![mk_file("fixtures/fix_argument/fix.js", "debugger\n", vec![sec])]);
    let (_code, o) = run(cmd, &h);
    assert_eq!(o.writes.len(), 1);
    assert_eq!(o.writes[0].path, "fixtures/fix_argument/fix.js");
    assert_eq!(o.writes[0].content, "\n");

    let mut cmd = command(vec!["fixtures/fix_argument/fix.vue"]);
    cmd.fix_options.fix = true;
    let mut sec1 = section(vec![]);
    sec1.edit = Some(Edit { start: 8, end: 17, replacement: String::new() });
    let mut sec2 = section(vec![]);
    sec2.edit = Some(Edit { start: 35, end: 44, replacement: String::new() });
    let h = host(vec![mk_file(
        "fixtures/fix_argument/fix.vue",
        "<script>debugger;</script>\n<script>debugger;</script>\n",
        vec![sec1, sec2],
    )]);
    let (_code, o) = run(cmd, &h);
    assert_eq!(o.writes.len(), 1);
    assert_eq!(o.writes[0].content, "<script></script>\n<script></script>\n");
}

#[test]
fn test_print_config_ban_all_rules() {
    let mut cmd = command(vec!["."]);
    cmd.filter = vec![(AllowWarnDeny::Allow, "all".to_string())];
    cmd.misc_options.print_config = true;
    let h = host(vec![]);
    let (code, _o) = run(cmd, &h);
    assert_eq!(code, CliRunResult::PrintConfigResult);
}

#[test]
fn test_print_config_ban_rules() {
    let mut cmd = command(vec!["."]);
    cmd.basic_options.config = Some("fixtures/print_config/ban_rules/eslintrc.json".to_string());
    cmd.filter = vec![
        (AllowWarnDeny::Allow, "all".to_string()),
        (AllowWarnDeny::Deny, "eqeqeq".to_string()),
    ];
    cmd.misc_options.print_config = true;
    let h = host(vec![]);
    let (code, _o) = run(cmd, &h);
    assert_eq!(code, CliRunResult::PrintConfigResult);
}

#[test]
fn test_overrides() {
    let cfg = "fixtures/overrides/.oxlintrc.json".to_string();
    let mut cmd = command(vec!["fixtures/overrides/test.js"]);
    cmd.basic_options.config = Some(cfg.clone());
    let h = host(vec![
        mk_file("fixtures/overrides/test.js", "debugger;\n", vec![section(vec![("a", true)])]),
        mk_file("fixtures/overrides/test.ts", "debugger;\n", vec![section(vec![])]),
        mk_file("fixtures/overrides/other.jsx", "<a/>\n", vec![section(vec![])]),
    ]);
    let (code, o) = run(cmd, &h);
    assert_eq!(code, CliRunResult::LintFoundErrors);
    assert_eq!(o.deliveries.len(), 1);
}

#[test]
fn test_overrides_directories() {
    let mut cmd = command(vec!["fixtures/overrides"]);
    cmd.basic_options.config = Some("fixtures/overrides/directories-config.json".to_string());
    let h = host(vec![
        mk_file("fixtures/overrides/a/x.js", "1\n", vec![section(vec![])]),
        mk_file("fixtures/overrides/b/y.js", "1\n", vec![section(vec![("b", false)])]),
    ]);
    let (code, o) = run(cmd, &h);
    assert_eq!(code, CliRunResult::LintSucceeded);
    assert_eq!(o.deliveries.len(), 2);
}

#[test]
fn test_overrides_envs_and_global() {
    let mut cmd = command(vec!["."]);
    cmd.basic_options.config = Some(".oxlintrc.json".to_string());
    let h = host(vec![mk_file("./app.js", "window;\n", vec![section(vec![])])]);
    let runner =
        LintRunner::new(cmd, None).with_cwd("fixtures/overrides_env_globals".to_string());
    let (code, _o) = runner.run(&h);
    assert_eq!(code, CliRunResult::LintSucceeded);
}

#[test]
fn test_ignore_patterns() {
    let mut cmd = command(vec!["."]);
    cmd.basic_options.config = Some("./test/eslintrc.json".to_string());
    cmd.ignore_options.ignore_pattern = vec!["*.ts".to_string()];
    let h = host(vec![
        mk_file("./kept.js", "1\n", vec![section(vec![])]),
        mk_file("./skipped.ts", "1\n", vec![section(vec![])]),
    ]);
    let (code, o) = run(cmd, &h);
    assert_eq!(code, CliRunResult::LintSucceeded);
    assert_eq!(delivered_paths(&o), vec!["./kept.js".to_string()]);
}

#[test]
fn test_config_ignore_patterns_extension() {
    let mut cmd = command(vec!["fixtures/config_ignore_patterns/ignore_extension"]);
    cmd.ignore_options.ignore_pattern = vec!["**/*.vue".to_string()];
    let h = host(vec![
        mk_file("fixtures/config_ignore_patterns/ignore_extension/main.js", "1\n", vec![section(
            vec![],
        )]),
        mk_file("fixtures/config_ignore_patterns/ignore_extension/main.vue", "1\n", vec![section(
            vec![],
        )]),
    ]);
    let (code, o) = run(cmd, &h);
    assert_eq!(code, CliRunResult::LintSucceeded);
    assert_eq!(o.deliveries.len(), 1);
}

#[test]
fn test_config_ignore_patterns_special_extension() {
    let mut cmd =
        command(vec!["fixtures/config_ignore_patterns/ignore_extension/main.js"]);
    cmd.ignore_options.ignore_pattern = vec!["*.js".to_string()];
    let h = host(vec![mk_file(
        "fixtures/config_ignore_patterns/ignore_extension/main.js",
        "1\n",
        vec![section(vec![])],
    )]);
    let (code, _o) = run(cmd, &h);
    assert_eq!(code, CliRunResult::LintNoFilesFound);
}

#[test]
fn test_config_ignore_patterns_directory() {
    let mut cmd = command(vec!["."]);
    cmd.basic_options.config = Some("eslintrc.json".to_string());
    cmd.ignore_options.ignore_pattern = vec!["./ignored".to_string()];
    let h = host(vec![mk_file("./ignored/a.js", "1\n", vec![section(vec![])])]);
    let runner = LintRunner::new(cmd, None)
        .with_cwd("fixtures/config_ignore_patterns/ignore_directory".to_string());
    let (code, _o) = runner.run(&h);
    assert_eq!(code, CliRunResult::LintNoFilesFound);
}

#[test]
fn ignore_path_with_relative_files() {
    let mut cmd = command(vec![
        "fixtures/issue_7566/tests/main.js",
        "fixtures/issue_7566/tests/function/main.js",
    ]);
    cmd.ignore_options.ignore_path = "fixtures/issue_7566/.oxlintignore".to_string();
    cmd.ignore_options.ignore_pattern = vec!["fixtures/issue_7566/tests".to_string()];
    let h = host(vec![
        mk_file("fixtures/issue_7566/tests/main.js", "1\n", vec![section(vec![])]),
        mk_file("fixtures/issue_7566/tests/function/main.js", "1\n", vec![section(vec![])]),
    ]);
    let (code, _o) = run(cmd, &h);
    assert_eq!(code, CliRunResult::LintNoFilesFound);
}

#[test]
fn test_jest_and_vitest_alias_rules() {
    let mut cmd = command(vec!["test.js"]);
    cmd.basic_options.config = Some("oxlint-jest.json".to_string());
    cmd.enable_plugins.jest_plugin = OverrideToggle::Enable;
    let h = host(vec![mk_file(
        "test.js",
        "test(1)\n",
        vec![section(vec![("jest(no-disabled-tests)", false)])],
    )]);
    let runner =
        LintRunner::new(cmd, None).with_cwd("fixtures/jest_and_vitest_alias_rules".to_string());
    let (code, o) = runner.run(&h);
    assert_eq!(code, CliRunResult::LintSucceeded);
    assert_eq!(o.deliveries[0].diagnostics.len(), 1);
}

#[test]
fn test_eslint_and_typescript_alias_rules() {
    let mut cmd = command(vec!["test.js"]);
    cmd.basic_options.config = Some("oxlint-eslint.json".to_string());
    let h = host(vec![mk_file(
        "test.js",
        "1\n",
        vec![section(vec![("eslint(no-unused-vars)", false)])],
    )]);
    let runner = LintRunner::new(cmd, None)
        .with_cwd("fixtures/eslint_and_typescript_alias_rules".to_string());
    let (code, o) = runner.run(&h);
    assert_eq!(code, CliRunResult::LintSucceeded);
    assert_eq!(o.deliveries[0].diagnostics.len(), 1);
}

#[test]
fn test_disable_eslint_and_unicorn_alias_rules() {
    let mut cmd = command(vec!["test.js"]);
    cmd.basic_options.config = Some(".oxlintrc-eslint.json".to_string());
    cmd.enable_plugins.unicorn_plugin = OverrideToggle::Disable;
    let h = host(vec![mk_file("test.js", "1\n", vec![section(vec![])])]);
    let runner = LintRunner::new(cmd, None)
        .with_cwd("fixtures/disable_eslint_and_unicorn_alias_rules".to_string());
    let (code, o) = runner.run(&h);
    assert_eq!(code, CliRunResult::LintSucceeded);
    assert_eq!(o.deliveries[0].diagnostics.len(), 0);
}

#[test]
fn test_two_rules_with_same_rule_name_from_different_plugins() {
    let mut cmd = command(vec!["test.js"]);
    cmd.basic_options.config = Some(".oxlintrc.json".to_string());
    let h = host(vec![mk_file(
        "test.js",
        "1\n",
        vec![section(vec![("eslint(no-redeclare)", false), ("typescript(no-redeclare)", false)])],
    )]);
    let runner =
        LintRunner::new(cmd, None).with_cwd("fixtures/two_rules_with_same_rule_name".to_string());
    let (code, o) = runner.run(&h);
    assert_eq!(code, CliRunResult::LintSucceeded);
    assert_eq!(o.deliveries[0].diagnostics.len(), 2);
}

#[test]
fn test_report_unused_directives() {
    let mut cmd = command(vec!["test.js"]);
    cmd.basic_options.config = Some(".oxlintrc.json".to_string());
    cmd.inline_config_options.report_unused_directives =
        ReportUnusedDirectives::WithoutSeverity(true);
    let h = host(vec![mk_file(
        "test.js",
        "// eslint-disable-next-line no-debugger\n1\n",
        vec![section(vec![("eslint(unused-disable-directive)", false)])],
    )]);
    let runner =
        LintRunner::new(cmd, None).with_cwd("fixtures/report_unused_directives".to_string());
    let (code, o) = runner.run(&h);
    assert_eq!(code, CliRunResult::LintSucceeded);
    assert_eq!(o.deliveries[0].diagnostics.len(), 1);
}
