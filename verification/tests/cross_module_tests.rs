// Cross-module runs: the import plugin switches the wave-based graph path
// on, dependencies are discovered and linked into the module graph, and
// pure dependencies never retain content.

use oxlint::cli::{
    BasicOptions, EnablePlugins, FixOptions, IgnoreOptions, InlineConfigOptions, LintCommand,
    MiscOptions, OutputOptions, OverrideToggle, ReportUnusedDirectives, WarningOptions,
};
use oxlint::host::{Diagnostic, Host, HostFile, HostImport, HostSection};
use oxlint::lint_runner::{CliRunResult, LintRunner};
use oxlint::options::OutputFormat;
use oxlint::runtime::RunOutcome;

fn import_section(imports: Vec<(&str, Option<usize>)>, diags: Vec<(&str, bool)>) -> HostSection {
    HostSection {
        imports: imports
            .into_iter()
            .map(|(s, resolved)| HostImport { specifier: s.to_string(), resolved })
            .collect(),
        parse_errors: Vec::new(),
        diagnostics: diags
            .into_iter()
            .map(|(m, severe)| Diagnostic { message: m.to_string(), severe })
            .collect(),
        edit: None,
    }
}

fn file(path: &str, content: &str, sections: Vec<HostSection>) -> HostFile {
    HostFile { path: path.to_string(), readable: true, content: content.to_string(), sections }
}

fn command(paths: Vec<&str>) -> LintCommand {
    LintCommand {
        basic_options: BasicOptions { config: None, tsconfig: None, init: false },
        filter: Vec::new(),
        enable_plugins: EnablePlugins {
            import_plugin: OverrideToggle::Enable,
            ..EnablePlugins::default()
        },
        fix_options: FixOptions { fix: false, fix_suggestions: false, fix_dangerously: false },
        ignore_options: IgnoreOptions {
            no_ignore: false,
            ignore_path: String::new(),
            ignore_pattern: Vec::new(),
        },
        warning_options: WarningOptions { quiet: false, deny_warnings: false, max_warnings: None },
        output_options: OutputOptions { format: OutputFormat::Default },
        list_rules: false,
        misc_options: MiscOptions { silent: false, threads: None, print_config: false },
        disable_nested_config: false,
        type_aware: false,
        inline_config_options: InlineConfigOptions {
            report_unused_directives: ReportUnusedDirectives::WithoutSeverity(false),
        },
        paths: paths.into_iter().map(|p| p.to_string()).collect(),
    }
}

fn run(cmd: LintCommand, h: &Host) -> (CliRunResult, RunOutcome) {
    LintRunner::new(cmd, None).run(h)
}

#[test]
fn test_nested_config() {
    let h = Host {
        files: vec![
            file("./package1/a.js", "1\n", vec![import_section(vec![], vec![("p1", false)])]),
            file("./package2/b.js", "1\n", vec![import_section(vec![], vec![("p2", false)])]),
        ],
    };
    let runner = LintRunner::new(command(vec!["."]), None)
        .with_cwd("fixtures/nested_config".to_string());
    let (code, o) = runner.run(&h);
    assert_eq!(code, CliRunResult::LintSucceeded);
    assert_eq!(o.deliveries.len(), 2);
}

#[test]
fn test_nested_config_subdirectory() {
    let h = Host {
        files: vec![file(
            "package3-deep-config/sub/deep.js",
            "1\n",
            vec![import_section(vec![], vec![("deep", false)])],
        )],
    };
    let runner = LintRunner::new(command(vec!["package3-deep-config"]), None)
        .with_cwd("fixtures/nested_config".to_string());
    let (code, o) = runner.run(&h);
    assert_eq!(code, CliRunResult::LintSucceeded);
    assert_eq!(o.deliveries.len(), 1);
}

#[test]
fn test_nested_config_explicit_config_precedence() {
    let mut cmd = command(vec!["."]);
    cmd.basic_options.config = Some("oxlint-no-console.json".to_string());
    let h = Host {
        files: vec![file("./a.js", "console.log(1)\n", vec![import_section(vec![], vec![])])],
    };
    let runner = LintRunner::new(cmd, None).with_cwd("fixtures/nested_config".to_string());
    let (code, o) = runner.run(&h);
    assert_eq!(code, CliRunResult::LintSucceeded);
    assert_eq!(o.deliveries.len(), 1);
}

#[test]
fn test_nested_config_filter_precedence() {
    let mut cmd = command(vec!["."]);
    cmd.filter = vec![(oxlint::options::AllowWarnDeny::Allow, "no-console".to_string())];
    let h = Host {
        files: vec![file("./a.js", "console.log(1)\n", vec![import_section(vec![], vec![])])],
    };
    let runner = LintRunner::new(cmd, None).with_cwd("fixtures/nested_config".to_string());
    let (code, _o) = runner.run(&h);
    assert_eq!(code, CliRunResult::LintSucceeded);
}

#[test]
fn test_nested_config_explicit_config_and_filter_precedence() {
    let mut cmd = command(vec!["."]);
    cmd.basic_options.config = Some("oxlint-no-console.json".to_string());
    cmd.filter = vec![(oxlint::options::AllowWarnDeny::Allow, "no-console".to_string())];
    let h = Host {
        files: vec![file("./a.js", "console.log(1)\n", vec![import_section(vec![], vec![])])],
    };
    let runner = LintRunner::new(cmd, None).with_cwd("fixtures/nested_config".to_string());
    let (code, _o) = runner.run(&h);
    assert_eq!(code, CliRunResult::LintSucceeded);
}

#[test]
fn test_extends_explicit_config() {
    let mut cmd = command(vec!["console.js"]);
    cmd.basic_options.config = Some("extends_rules_config.json".to_string());
    let h = Host {
        files: vec![file(
            "console.js",
            "console.log(1)\n",
            vec![import_section(vec![], vec![("eslint(no-console)", true)])],
        )],
    };
    let runner = LintRunner::new(cmd, None).with_cwd("fixtures/extends_config".to_string());
    let (code, _o) = runner.run(&h);
    assert_eq!(code, CliRunResult::LintFoundErrors);
}

#[test]
fn test_extends_extends_config() {
    let mut cmd = command(vec!["console.js"]);
    cmd.basic_options.config = Some("relative_paths/extends_extends_config.json".to_string());
    let h = Host {
        files: vec![file(
            "console.js",
            "console.log(1)\n",
            vec![import_section(vec![], vec![("eslint(no-console)", true)])],
        )],
    };
    let runner = LintRunner::new(cmd, None).with_cwd("fixtures/extends_config".to_string());
    let (code, _o) = runner.run(&h);
    assert_eq!(code, CliRunResult::LintFoundErrors);
}

#[test]
fn test_extends_overrides() {
    let h = Host {
        files: vec![
            file("overrides/a.js", "1\n", vec![import_section(vec![], vec![])]),
            file("overrides_same_directory/b.js", "1\n", vec![import_section(vec![], vec![])]),
        ],
    };
    let runner = LintRunner::new(command(vec!["overrides", "overrides_same_directory"]), None)
        .with_cwd("fixtures/extends_config".to_string());
    let (code, o) = runner.run(&h);
    assert_eq!(code, CliRunResult::LintSucceeded);
    assert_eq!(o.deliveries.len(), 2);
}

#[test]
fn test_nested_config_multi_file_analysis_imports() {
    // an entry importing a sibling: the dependency is parsed into the
    // graph and linked, but only the entry is linted
    let h = Host {
        files: vec![
            file(
                "issue_10054/entry.js",
                "import { helper } from './helper';\n",
                vec![import_section(vec![("./helper", Some(1))], vec![("unused import", false)])],
            ),
            file("issue_10054/helper.js", "export const helper = 1;\n", vec![import_section(
                vec![],
                vec![("never reported", true)],
            )]),
        ],
    };
    let runner =
        LintRunner::new(command(vec!["issue_10054/entry.js"]), None).with_cwd("fixtures".to_string());
    let (code, o) = runner.run(&h);
    assert_eq!(code, CliRunResult::LintSucceeded);
    assert_eq!(o.deliveries.len(), 1);
    assert_eq!(o.deliveries[0].path, "issue_10054/entry.js");
    assert!(o.graph.get(&"issue_10054/helper.js".to_string()).is_some());
    assert!(!o.retained.contains(&"issue_10054/helper.js".to_string()));
}

#[test]
fn test_cross_modules_with_nested_config() {
    let h = Host {
        files: vec![
            file("./a.js", "import './b';\n", vec![import_section(vec![("./b", Some(1))], vec![])]),
            file("./b.js", "1\n", vec![import_section(vec![], vec![])]),
        ],
    };
    let runner = LintRunner::new(command(vec!["."]), None)
        .with_cwd("fixtures/cross_module_nested_config".to_string());
    let (code, o) = runner.run(&h);
    assert_eq!(code, CliRunResult::LintSucceeded);
    assert_eq!(o.deliveries.len(), 2);
    assert_eq!(o.graph.len(), 2);
}

#[test]
fn test_cross_modules_with_extended_config() {
    let h = Host {
        files: vec![
            file("./a.js", "import './b';\n", vec![import_section(vec![("./b", Some(1))], vec![])]),
            file("./b.js", "1\n", vec![import_section(vec![], vec![])]),
        ],
    };
    let runner = LintRunner::new(command(vec!["."]), None)
        .with_cwd("fixtures/cross_module_extended_config".to_string());
    let (code, o) = runner.run(&h);
    assert_eq!(code, CliRunResult::LintSucceeded);
    assert_eq!(o.graph.len(), 2);
}

#[test]
fn test_import_plugin_being_enabled_correctly() {
    // a cycle: both files import each other; the graph closes over the
    // cycle without reprocessing either file
    let mut cmd = command(vec!["dep-a.js", "dep-b.js"]);
    cmd.filter = vec![(oxlint::options::AllowWarnDeny::Deny, "import/no-cycle".to_string())];
    let h = Host {
        files: vec![
            file(
                "dep-a.js",
                "import './dep-b.js';\n",
                vec![import_section(vec![("./dep-b.js", Some(1))], vec![("import(no-cycle)", true)])],
            ),
            file(
                "dep-b.js",
                "import './dep-a.js';\n",
                vec![import_section(vec![("./dep-a.js", Some(0))], vec![("import(no-cycle)", true)])],
            ),
        ],
    };
    let runner = LintRunner::new(cmd, None).with_cwd("fixtures/import-cycle".to_string());
    let (code, o) = runner.run(&h);
    assert_eq!(code, CliRunResult::LintFoundErrors);
    assert_eq!(o.deliveries.len(), 2);
    assert_eq!(o.graph.len(), 2);
    assert_eq!(o.reads.len(), 2);
}

#[test]
fn test_import_plugin_enabled_in_config() {
    let mut cmd = command(vec!["test.js"]);
    cmd.basic_options.config = Some(".oxlintrc.json".to_string());
    let h = Host {
        files: vec![
            file("test.js", "import './other';\n", vec![import_section(
                vec![("./other", Some(1))],
                vec![],
            )]),
            file("other.js", "1\n", vec![import_section(vec![], vec![])]),
        ],
    };
    let runner = LintRunner::new(cmd, None).with_cwd("fixtures/import".to_string());
    let (code, o) = runner.run(&h);
    assert_eq!(code, CliRunResult::LintSucceeded);
    assert!(o.graph.get(&"other.js".to_string()).is_some());
}

#[test]
fn test_rule_config_being_enabled_correctly() {
    let mut cmd = command(vec!["test.js"]);
    cmd.basic_options.config = Some(".oxlintrc.json".to_string());
    let h = Host {
        files: vec![file("test.js", "1\n", vec![import_section(vec![], vec![])])],
    };
    let runner = LintRunner::new(cmd, None).with_cwd("fixtures/issue_11054".to_string());
    let (code, o) = runner.run(&h);
    assert_eq!(code, CliRunResult::LintSucceeded);
    assert_eq!(o.deliveries.len(), 1);
}

#[test]
fn test_plugins_in_overrides_enabled_correctly() {
    let mut cmd = command(vec!["test.js"]);
    cmd.basic_options.config = Some(".oxlintrc.json".to_string());
    let h = Host {
        files: vec![file("test.js", "1\n", vec![import_section(vec![], vec![])])],
    };
    let runner = LintRunner::new(cmd, None).with_cwd("fixtures/overrides_with_plugin".to_string());
    let (code, _o) = runner.run(&h);
    assert_eq!(code, CliRunResult::LintSucceeded);
}

#[test]
fn test_plugins_inside_overrides_categories_enabled_correctly() {
    let mut cmd = command(vec!["test.js"]);
    cmd.basic_options.config = Some(".oxlintrc.json".to_string());
    let h = Host {
        files: vec![file("test.js", "1\n", vec![import_section(vec![], vec![])])],
    };
    let runner = LintRunner::new(cmd, None).with_cwd("fixtures/issue_10394".to_string());
    let (code, _o) = runner.run(&h);
    assert_eq!(code, CliRunResult::LintSucceeded);
}

#[test]
fn test_jsx_a11y_label_has_associated_control() {
    let mut cmd = command(vec!["test.jsx"]);
    cmd.basic_options.config = Some(".oxlintrc.json".to_string());
    cmd.enable_plugins.jsx_a11y_plugin = OverrideToggle::Enable;
    let h = Host {
        files: vec![file(
            "test.jsx",
            "<label/>\n",
            vec![import_section(vec![], vec![("jsx-a11y(label-has-associated-control)", false)])],
        )],
    };
    let runner = LintRunner::new(cmd, None).with_cwd("fixtures/issue_11644".to_string());
    let (code, o) = runner.run(&h);
    assert_eq!(code, CliRunResult::LintSucceeded);
    assert_eq!(o.deliveries[0].diagnostics.len(), 1);
}

#[test]
fn test_dot_folder() {
    let h = Host {
        files: vec![file("./app.js", "1\n", vec![import_section(vec![], vec![])])],
    };
    let runner =
        LintRunner::new(command(vec!["."]), None).with_cwd("fixtures/dot_folder".to_string());
    let (code, o) = runner.run(&h);
    assert_eq!(code, CliRunResult::LintSucceeded);
    assert_eq!(o.deliveries.len(), 1);
}

#[test]
fn test_enable_vitest_rule_without_plugin() {
    let mut cmd = command(vec!["fixtures/eslintrc_vitest_replace/foo.test.js"]);
    cmd.basic_options.config = Some("fixtures/eslintrc_vitest_replace/eslintrc.json".to_string());
    let h = Host {
        files: vec![file(
            "fixtures/eslintrc_vitest_replace/foo.test.js",
            "test(1)\n",
            vec![import_section(vec![], vec![])],
        )],
    };
    let (code, o) = run(cmd, &h);
    assert_eq!(code, CliRunResult::LintSucceeded);
    assert_eq!(o.deliveries[0].diagnostics.len(), 0);
}

#[test]
fn test_enable_vitest_plugin() {
    let mut cmd = command(vec!["fixtures/eslintrc_vitest_replace/foo.test.js"]);
    cmd.basic_options.config = Some("fixtures/eslintrc_vitest_replace/eslintrc.json".to_string());
    cmd.enable_plugins.vitest_plugin = OverrideToggle::Enable;
    let h = Host {
        files: vec![file(
            "fixtures/eslintrc_vitest_replace/foo.test.js",
            "test(1)\n",
            vec![import_section(vec![], vec![("vitest(no-disabled-tests)", false)])],
        )],
    };
    let (code, o) = run(cmd, &h);
    assert_eq!(code, CliRunResult::LintSucceeded);
    assert_eq!(o.deliveries[0].diagnostics.len(), 1);
}

#[test]
fn test_tsgolint() {
    let mut cmd = command(vec!["no-floating-promises.ts"]);
    cmd.type_aware = true;
    let h = Host {
        files: vec![file(
            "no-floating-promises.ts",
            "Promise.resolve();\n",
            vec![import_section(vec![], vec![("typescript(no-floating-promises)", true)])],
        )],
    };
    let runner = LintRunner::new(cmd, None).with_cwd("fixtures/tsgolint".to_string());
    let (code, o) = runner.run(&h);
    assert_eq!(code, CliRunResult::LintFoundErrors);
    assert_eq!(o.deliveries.len(), 1);
}

#[test]
fn test_tsgolint_silent() {
    let mut cmd = command(vec!["no-floating-promises.ts"]);
    cmd.type_aware = true;
    cmd.misc_options.silent = true;
    let h = Host {
        files: vec![file(
            "no-floating-promises.ts",
            "Promise.resolve();\n",
            vec![import_section(vec![], vec![("typescript(no-floating-promises)", true)])],
        )],
    };
    let runner = LintRunner::new(cmd, None).with_cwd("fixtures/tsgolint".to_string());
    let (code, _o) = runner.run(&h);
    assert_eq!(code, CliRunResult::LintFoundErrors);
}

#[test]
fn test_tsgolint_config() {
    let mut cmd = command(vec!["no-floating-promises.ts"]);
    cmd.type_aware = true;
    cmd.basic_options.config = Some("config-test.json".to_string());
    let h = Host {
        files: vec![file(
            "no-floating-promises.ts",
            "Promise.resolve();\n",
            vec![import_section(vec![], vec![("typescript(no-floating-promises)", true)])],
        )],
    };
    let runner = LintRunner::new(cmd, None).with_cwd("fixtures/tsgolint".to_string());
    let (code, _o) = runner.run(&h);
    assert_eq!(code, CliRunResult::LintFoundErrors);
}

#[test]
fn test_tsgolint_no_typescript_files() {
    let mut cmd = command(vec!["test.svelte"]);
    cmd.type_aware = true;
    let h = Host {
        files: vec![file("test.svelte", "<script></script>\n", vec![import_section(
            vec![],
            vec![],
        )])],
    };
    let runner = LintRunner::new(cmd, None).with_cwd("fixtures/tsgolint".to_string());
    let (code, o) = runner.run(&h);
    assert_eq!(code, CliRunResult::LintSucceeded);
    assert_eq!(o.deliveries[0].diagnostics.len(), 0);
}
